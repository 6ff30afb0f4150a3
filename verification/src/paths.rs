//! Search-path construction: the ordered preference-list file names for a
//! desktop-id list, and the ordered candidate paths under a list of root
//! directories.

use vstd::prelude::*;
use vstd::string::StringExecFns;

verus! {

/// The preference-list file name for one desktop id: `<id>-terminals.list`.
pub open spec fn name_for_desktop(id: Seq<char>) -> Seq<char> {
    id + "-terminals.list"@
}

/// The ordered preference-list file names for a desktop-id list: one
/// per-desktop name for each id in order, then the generic name
/// `terminals.list`.
pub open spec fn config_names(ids: Seq<Seq<char>>) -> Seq<Seq<char>> {
    Seq::new(ids.len(), |i: int| name_for_desktop(ids[i])) + seq!["terminals.list"@]
}

/// Builds the ordered list of preference-list file names to look for:
/// `<id>-terminals.list` for each desktop id in order, then the generic
/// `terminals.list`.
pub fn config_file_names(desktops: &Vec<String>) -> (r: Vec<String>)
    ensures
        r.deep_view() == config_names(desktops.deep_view()),
{
    let ghost ids = desktops.deep_view();
    let mut r: Vec<String> = Vec::new();
    let mut i: usize = 0;
    while i < desktops.len()
        invariant
            desktops.deep_view() == ids,
            i <= desktops.len(),
            r.deep_view() =~= Seq::new(i as nat, |k: int| name_for_desktop(ids[k])),
        decreases desktops.len() - i,
    {
        let ghost prev = r.deep_view();
        let name = desktops[i].clone().concat("-terminals.list");
        r.push(name);
        proof {
            assert(r.deep_view() =~= prev.push(name_for_desktop(ids[i as int])));
        }
        i = i + 1;
    }
    let ghost prev = r.deep_view();
    r.push(String::from_str("terminals.list"));
    proof {
        assert(r.deep_view() =~= prev + seq!["terminals.list"@]);
    }
    r
}

/// One candidate path: `<dir>/<name>`.
pub open spec fn path_under(dir: Seq<char>, name: Seq<char>) -> Seq<char> {
    dir + "/"@ + name
}

/// The paths of every name under one directory, in name order.
pub open spec fn paths_under(dir: Seq<char>, names: Seq<Seq<char>>) -> Seq<Seq<char>> {
    Seq::new(names.len(), |j: int| path_under(dir, names[j]))
}

/// All candidate paths: for each directory in order, every name in order.
pub open spec fn joined_paths(dirs: Seq<Seq<char>>, names: Seq<Seq<char>>) -> Seq<Seq<char>>
    decreases dirs.len(),
{
    if dirs.len() == 0 {
        Seq::empty()
    } else {
        paths_under(dirs[0], names) + joined_paths(dirs.skip(1), names)
    }
}

/// Builds the ordered list of paths to probe for preference lists: for each
/// root directory in priority order, each file name in order, joined as
/// `<dir>/<name>`. Which of them exist is for the caller to test.
pub fn config_paths(dirs: &Vec<String>, names: &Vec<String>) -> (r: Vec<String>)
    ensures
        r.deep_view() == joined_paths(dirs.deep_view(), names.deep_view()),
{
    let ghost ds = dirs.deep_view();
    let ghost ns = names.deep_view();
    let mut r: Vec<String> = Vec::new();
    let mut i: usize = 0;
    proof {
        assert(r.deep_view() =~= Seq::<Seq<char>>::empty());
        assert(ds.skip(0) =~= ds);
        assert(r.deep_view() + joined_paths(ds, ns) =~= joined_paths(ds, ns));
    }
    while i < dirs.len()
        invariant
            dirs.deep_view() == ds,
            names.deep_view() == ns,
            i <= dirs.len(),
            joined_paths(ds, ns) == r.deep_view() + joined_paths(ds.skip(i as int), ns),
        decreases dirs.len() - i,
    {
        let ghost row_start = r.deep_view();
        proof {
            assert(ds.skip(i as int).len() > 0);
            assert(ds.skip(i as int)[0] == ds[i as int]);
            assert(ds.skip(i as int).skip(1) =~= ds.skip(i as int + 1));
        }
        let mut j: usize = 0;
        while j < names.len()
            invariant
                dirs.deep_view() == ds,
                names.deep_view() == ns,
                i < dirs.len(),
                j <= names.len(),
                r.deep_view() =~= row_start + paths_under(ds[i as int], ns).subrange(
                    0,
                    j as int,
                ),
            decreases names.len() - j,
        {
            let ghost prev = r.deep_view();
            let p = dirs[i].clone().concat("/").concat(names[j].as_str());
            r.push(p);
            proof {
                assert(p@ == path_under(ds[i as int], ns[j as int]));
                assert(r.deep_view() =~= prev.push(path_under(ds[i as int], ns[j as int])));
                assert(paths_under(ds[i as int], ns).subrange(0, j as int + 1)
                    =~= paths_under(ds[i as int], ns).subrange(0, j as int).push(
                    path_under(ds[i as int], ns[j as int]),
                ));
            }
            j = j + 1;
        }
        proof {
            assert(paths_under(ds[i as int], ns).subrange(0, ns.len() as int) =~= paths_under(
                ds[i as int],
                ns,
            ));
            assert(r.deep_view() + joined_paths(ds.skip(i as int + 1), ns) =~= row_start
                + joined_paths(ds.skip(i as int), ns));
        }
        i = i + 1;
    }
    proof {
        assert(joined_paths(ds.skip(dirs.len() as int), ns) =~= Seq::<Seq<char>>::empty());
        assert(r.deep_view() + Seq::<Seq<char>>::empty() =~= r.deep_view());
    }
    r
}

} // verus!
