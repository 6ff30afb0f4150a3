//! Descriptors: the relevant attributes of one candidate's file, read
//! through the structured-entry parser, and the visibility/availability
//! filter chain over them.

use vstd::prelude::*;
use crate::split::split_on;
use crate::split::split_chars;
use vstd::string::StrSliceExecFns;
use vstd::string::StringExecFns;

verus! {

/// Whether the structured-entry parser accepts these bytes. The parser is
/// deterministic, so this depends on the bytes alone.
pub uninterp spec fn parse_ok(bytes: Seq<u8>) -> bool;

/// The values the structured-entry parser yields for one attribute of one
/// section of these bytes: `None` when the section is absent, otherwise the
/// value of each definition of the attribute, in file order.
pub uninterp spec fn attr_values(bytes: Seq<u8>, section: Seq<char>, name: Seq<char>) -> Option<
    Seq<Seq<char>>,
>;

/// Relies on `freedesktop_entry_parser::Entry::parse` (whether bytes parse,
/// and what they parse to, depends on the bytes alone) and on
/// `Entry::get`, which returns the parsed values of one attribute of one
/// section, or `None` when the section is absent.
#[verifier::external_body]
fn lookup_attr(bytes: &Vec<u8>, section: &str, name: &str) -> (r: Result<
    Option<Vec<String>>,
    (),
>)
    ensures
        r is Ok <==> parse_ok(bytes@),
        (r matches Ok(v) ==> v.deep_view() == attr_values(bytes@, section@, name@)),
{
    match freedesktop_entry_parser::Entry::parse(bytes.as_slice()) {
        Ok(e) => Ok(e.get(section, name).map(|vals| vals.to_vec())),
        Err(_) => Err(()),
    }
}

/// Relies on `which::which`: it succeeds exactly when the named command
/// resolves to an executable on the execution search path. The answer
/// depends on the environment and the filesystem, so nothing is assumed
/// of it.
#[verifier::external_body]
fn executable_resolves(name: &str) -> bool {
    which::which(name).is_ok()
}

/// The single value of an attribute: the first of its parsed values, absent
/// when the section is absent or the attribute never defined.
pub open spec fn first_value(vals: Option<Seq<Seq<char>>>) -> Option<Seq<char>> {
    match vals {
        Some(l) => if l.len() > 0 {
            Some(l[0])
        } else {
            None
        },
        None => None,
    }
}

/// The value of one attribute of the `Desktop Entry` section of a
/// descriptor file.
pub open spec fn parsed_attr(bytes: Seq<u8>, name: Seq<char>) -> Option<Seq<char>> {
    first_value(attr_values(bytes, "Desktop Entry"@, name))
}

/// The parsed attributes of one candidate's descriptor file that the filter
/// chain and the launcher read.
pub struct Descriptor {
    pub hidden: Option<String>,
    pub not_show_in: Option<String>,
    pub only_show_in: Option<String>,
    pub try_exec: Option<String>,
    pub exec_cmd: Option<String>,
    pub exec_arg: Option<String>,
    pub x_exec_arg: Option<String>,
}

/// The mathematical value of a descriptor: each relevant attribute as an
/// optional character sequence.
pub ghost struct DescriptorView {
    pub hidden: Option<Seq<char>>,
    pub not_show_in: Option<Seq<char>>,
    pub only_show_in: Option<Seq<char>>,
    pub try_exec: Option<Seq<char>>,
    pub exec_cmd: Option<Seq<char>>,
    pub exec_arg: Option<Seq<char>>,
    pub x_exec_arg: Option<Seq<char>>,
}

impl View for Descriptor {
    type V = DescriptorView;

    open spec fn view(&self) -> DescriptorView {
        DescriptorView {
            hidden: self.hidden.deep_view(),
            not_show_in: self.not_show_in.deep_view(),
            only_show_in: self.only_show_in.deep_view(),
            try_exec: self.try_exec.deep_view(),
            exec_cmd: self.exec_cmd.deep_view(),
            exec_arg: self.exec_arg.deep_view(),
            x_exec_arg: self.x_exec_arg.deep_view(),
        }
    }
}

/// The descriptor that a parsable file holds: the relevant attributes of its
/// `Desktop Entry` section.
pub open spec fn descriptor_of(bytes: Seq<u8>) -> DescriptorView {
    DescriptorView {
        hidden: parsed_attr(bytes, "Hidden"@),
        not_show_in: parsed_attr(bytes, "NotShowIn"@),
        only_show_in: parsed_attr(bytes, "OnlyShowIn"@),
        try_exec: parsed_attr(bytes, "TryExec"@),
        exec_cmd: parsed_attr(bytes, "Exec"@),
        exec_arg: parsed_attr(bytes, "ExecArg"@),
        x_exec_arg: parsed_attr(bytes, "X-ExecArg"@),
    }
}

/// Keeps the first parsed value of an attribute, if any.
fn head_of(vals: Option<Vec<String>>) -> (r: Option<String>)
    ensures
        r.deep_view() == first_value(vals.deep_view()),
{
    match vals {
        Some(v) => if v.len() > 0 {
            Some(v[0].clone())
        } else {
            None
        },
        None => None,
    }
}

/// Parses one candidate's descriptor file. Returns `None` exactly when the
/// bytes do not parse; a parse failure skips the candidate, it is not fatal
/// to the run.
pub fn parse_descriptor(bytes: &Vec<u8>) -> (r: Option<Descriptor>)
    ensures
        r is Some <==> parse_ok(bytes@),
        (r matches Some(d) ==> d@ == descriptor_of(bytes@)),
{
    let hidden = match lookup_attr(bytes, "Desktop Entry", "Hidden") {
        Ok(v) => head_of(v),
        Err(_) => { return None; },
    };
    let not_show_in = match lookup_attr(bytes, "Desktop Entry", "NotShowIn") {
        Ok(v) => head_of(v),
        Err(_) => { return None; },
    };
    let only_show_in = match lookup_attr(bytes, "Desktop Entry", "OnlyShowIn") {
        Ok(v) => head_of(v),
        Err(_) => { return None; },
    };
    let try_exec = match lookup_attr(bytes, "Desktop Entry", "TryExec") {
        Ok(v) => head_of(v),
        Err(_) => { return None; },
    };
    let exec_cmd = match lookup_attr(bytes, "Desktop Entry", "Exec") {
        Ok(v) => head_of(v),
        Err(_) => { return None; },
    };
    let exec_arg = match lookup_attr(bytes, "Desktop Entry", "ExecArg") {
        Ok(v) => head_of(v),
        Err(_) => { return None; },
    };
    let x_exec_arg = match lookup_attr(bytes, "Desktop Entry", "X-ExecArg") {
        Ok(v) => head_of(v),
        Err(_) => { return None; },
    };
    Some(
        Descriptor {
            hidden,
            not_show_in,
            only_show_in,
            try_exec,
            exec_cmd,
            exec_arg,
            x_exec_arg,
        },
    )
}

/// The desktop ids of a semicolon-separated attribute value, as
/// `str::split_terminator` yields them: one trailing separator closes the
/// last token instead of opening an empty one.
pub open spec fn term_tokens(v: Seq<char>) -> Seq<Seq<char>> {
    if v.len() == 0 {
        Seq::empty()
    } else if v.last() == ';' {
        split_on(v.drop_last(), ';')
    } else {
        split_on(v, ';')
    }
}

/// Whether some id of `a` equals (exact, case-sensitive match) some id
/// of `b`.
pub open spec fn overlap(a: Seq<Seq<char>>, b: Seq<Seq<char>>) -> bool {
    exists|i: int| 0 <= i < a.len() && b.contains(a[i])
}

/// The filter chain over a descriptor, given whether its `TryExec` binary
/// (if named) resolves: rejected when `Hidden` is exactly `true`, when a
/// `NotShowIn` id is a current desktop id, when `OnlyShowIn` lists no
/// current desktop id, or when the `TryExec` binary does not resolve.
pub open spec fn accepted(
    d: DescriptorView,
    desktops: Seq<Seq<char>>,
    try_exec_found: bool,
) -> bool {
    &&& d.hidden != Some("true"@)
    &&& (d.not_show_in matches Some(v) ==> !overlap(term_tokens(v), desktops))
    &&& (d.only_show_in matches Some(v) ==> overlap(term_tokens(v), desktops))
    &&& (d.try_exec is Some ==> try_exec_found)
}

/// Splits a semicolon-separated desktop-id attribute value into its ids.
pub fn terminator_tokens(s: &str) -> (r: Vec<String>)
    ensures
        r.deep_view() == term_tokens(s@),
{
    let n = s.unicode_len();
    if n == 0 {
        let r: Vec<String> = Vec::new();
        proof {
            assert(r.deep_view() =~= term_tokens(s@));
        }
        return r;
    }
    if s.get_char(n - 1) == ';' {
        let body = s.substring_char(0, n - 1);
        proof {
            assert(s@.subrange(0, n as int - 1) =~= s@.drop_last());
        }
        split_chars(body, ';')
    } else {
        split_chars(s, ';')
    }
}

/// Whether some id of `a` equals some id of `b`.
pub fn overlaps(a: &Vec<String>, b: &Vec<String>) -> (r: bool)
    ensures
        r == overlap(a.deep_view(), b.deep_view()),
{
    let mut i: usize = 0;
    while i < a.len()
        invariant
            i <= a.len(),
            forall|k: int| 0 <= k < i as int ==> !b.deep_view().contains(a.deep_view()[k]),
        decreases a.len() - i,
    {
        if crate::candidates::contains_id(b, &a[i]) {
            proof {
                assert(b.deep_view().contains(a.deep_view()[i as int]));
            }
            return true;
        }
        i = i + 1;
    }
    false
}

/// Applies the filter chain to a descriptor, the resolvability of its
/// `TryExec` binary given as `try_exec_found`: returns exactly whether the
/// descriptor is accepted for these desktops.
pub fn passes_filter_with(d: &Descriptor, desktops: &Vec<String>, try_exec_found: bool) -> (r:
    bool)
    ensures
        r == accepted(d@, desktops.deep_view(), try_exec_found),
{
    match &d.hidden {
        Some(h) => {
            let t = String::from_str("true");
            if *h == t {
                return false;
            }
        },
        None => {},
    }
    match &d.not_show_in {
        Some(v) => {
            let toks = terminator_tokens(v.as_str());
            if overlaps(&toks, desktops) {
                return false;
            }
        },
        None => {},
    }
    match &d.only_show_in {
        Some(v) => {
            let toks = terminator_tokens(v.as_str());
            if !overlaps(&toks, desktops) {
                return false;
            }
        },
        None => {},
    }
    match &d.try_exec {
        Some(_) => try_exec_found,
        None => true,
    }
}

/// Applies the filter chain to a descriptor, asking the execution search
/// path whether the `TryExec` binary resolves. Whatever that probe answers,
/// the result is the filter chain's verdict for some answer; when no
/// `TryExec` is named the probe cannot reject.
pub fn passes_filter(d: &Descriptor, desktops: &Vec<String>) -> (r: bool)
    ensures
        exists|b: bool| r == accepted(d@, desktops.deep_view(), b),
        d@.try_exec is None ==> r == accepted(d@, desktops.deep_view(), true),
{
    let found = match &d.try_exec {
        Some(t) => executable_resolves(t.as_str()),
        None => true,
    };
    let r = passes_filter_with(d, desktops, found);
    proof {
        assert(r == accepted(d@, desktops.deep_view(), found));
    }
    r
}

/// A descriptor with `Hidden` exactly `true` is rejected unconditionally,
/// whatever its other attributes and the current desktops.
pub proof fn lemma_hidden_rejected(
    d: DescriptorView,
    desktops: Seq<Seq<char>>,
    try_exec_found: bool,
)
    requires
        d.hidden == Some("true"@),
    ensures
        !accepted(d, desktops, try_exec_found),
{
}

/// When every other filter passes, `OnlyShowIn` decides alone: the
/// descriptor is accepted exactly when some listed id is a current
/// desktop id.
pub proof fn lemma_only_show_in_decides(
    d: DescriptorView,
    desktops: Seq<Seq<char>>,
    try_exec_found: bool,
    v: Seq<char>,
)
    requires
        d.only_show_in == Some(v),
        d.hidden != Some("true"@),
        (d.not_show_in matches Some(w) ==> !overlap(term_tokens(w), desktops)),
        (d.try_exec is Some ==> try_exec_found),
    ensures
        accepted(d, desktops, try_exec_found) <==> overlap(term_tokens(v), desktops),
{
}

/// A descriptor whose `NotShowIn` lists a current desktop id is rejected.
pub proof fn lemma_not_show_in_rejects(
    d: DescriptorView,
    desktops: Seq<Seq<char>>,
    try_exec_found: bool,
    v: Seq<char>,
)
    requires
        d.not_show_in == Some(v),
        overlap(term_tokens(v), desktops),
    ensures
        !accepted(d, desktops, try_exec_found),
{
}

/// A descriptor naming a `TryExec` binary that does not resolve is
/// rejected, whatever its other attributes.
pub proof fn lemma_try_exec_rejected(d: DescriptorView, desktops: Seq<Seq<char>>)
    requires
        d.try_exec is Some,
    ensures
        !accepted(d, desktops, false),
{
}

} // verus!
