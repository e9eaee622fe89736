//! Where the files of modules and crates are looked for.

use vstd::prelude::*;
use vstd::slice::slice_to_vec;
use vstd::string::StringSliceAdditionalSpecFns;
use crate::collab::{DependencyResolver, Session};
use crate::text::concat;

verus! {

/// The two places, each a path from a directory down, where the file of the module
/// `name` may be: `<name>.rs`, and `mod.rs` in the directory `<name>`.
pub open spec fn module_file_places(name: Seq<u8>) -> Seq<Seq<Seq<u8>>> {
    seq![seq![name + ".rs".spec_bytes()], seq![name, "mod.rs".spec_bytes()]]
}

/// The two places, each a path from the directory of the standard library down,
/// where the root file of the crate `name` may be: `lib.rs` in the directory
/// `lib<name>`, and `lib.rs` in the directory `<name>`.
pub open spec fn std_crate_places(name: Seq<u8>) -> Seq<Seq<Seq<u8>>> {
    seq![seq!["lib".spec_bytes() + name, "lib.rs".spec_bytes()], seq![name, "lib.rs".spec_bytes()]]
}

/// The names of each place of a list.
pub open spec fn place_views(places: Seq<Vec<Vec<u8>>>) -> Seq<Seq<Seq<u8>>> {
    Seq::new(places.len(), |i: int| Seq::new(places[i]@.len(), |j: int| places[i]@[j]@))
}

fn place(first: Vec<u8>, second: Option<Vec<u8>>) -> (r: Vec<Vec<u8>>)
    ensures
        r@.len() == if second is Some { 2int } else { 1int },
        r@[0] == first,
        second is Some ==> r@[1] == second.unwrap(),
{
    let mut p: Vec<Vec<u8>> = Vec::new();
    p.push(first);
    if let Some(second) = second {
        p.push(second);
    }
    p
}

/// Lists the places where the file of the module `name` may be, the first to look at
/// first.
pub fn module_file_candidates(name: &[u8]) -> (r: Vec<Vec<Vec<u8>>>)
    ensures
        place_views(r@) == module_file_places(name@),
{
    let mut out: Vec<Vec<Vec<u8>>> = Vec::new();
    out.push(place(concat(name, ".rs".as_bytes()), None));
    out.push(place(slice_to_vec(name), Some(slice_to_vec("mod.rs".as_bytes()))));
    proof {
        let places = module_file_places(name@);
        assert(place_views(out@).len() == places.len());
        assert(place_views(out@)[0] =~= places[0]);
        assert(place_views(out@)[1] =~= places[1]);
        assert(place_views(out@) =~= places);
    }
    out
}

/// Lists the places in the directory of the standard library where the root file of
/// the crate `name` may be, the first to look at first.
pub fn std_crate_candidates(name: &[u8]) -> (r: Vec<Vec<Vec<u8>>>)
    ensures
        place_views(r@) == std_crate_places(name@),
{
    let mut out: Vec<Vec<Vec<u8>>> = Vec::new();
    out.push(
        place(concat("lib".as_bytes(), name), Some(slice_to_vec("lib.rs".as_bytes()))),
    );
    out.push(place(slice_to_vec(name), Some(slice_to_vec("lib.rs".as_bytes()))));
    proof {
        let places = std_crate_places(name@);
        assert(place_views(out@).len() == places.len());
        assert(place_views(out@)[0] =~= places[0]);
        assert(place_views(out@)[1] =~= places[1]);
        assert(place_views(out@) =~= places);
    }
    out
}

/// The index of the first answer from index `from` on that is `true`.
pub open spec fn first_true(found: Seq<bool>, from: int) -> Option<int>
    decreases found.len() - from,
{
    if from < 0 || from >= found.len() {
        None
    } else if found[from] {
        Some(from)
    } else {
        first_true(found, from + 1)
    }
}

/// The index found holds `true` and none before it does; where none is found, no
/// answer from `from` on is `true`.
pub proof fn lemma_first_true(found: Seq<bool>, from: int)
    requires
        0 <= from,
    ensures
        match first_true(found, from) {
            Some(i) => from <= i < found.len() && found[i] && forall|j: int|
                from <= j < i ==> !found[j],
            None => forall|j: int| from <= j < found.len() ==> !found[j],
        },
    decreases found.len() - from,
{
    if from < found.len() && !found[from] {
        lemma_first_true(found, from + 1);
    }
}

/// Picks the first place that is known, from the answers to the question whether a
/// file is known in each place.
pub fn first_known(found: &[bool]) -> (r: Option<usize>)
    ensures
        r is Some <==> exists|i: int| 0 <= i < found@.len() && found@[i],
        r is Some ==> r.unwrap() < found@.len() && found@[r.unwrap() as int] && forall|j: int|
            0 <= j < r.unwrap() ==> !found@[j],
        r is Some == first_true(found@, 0) is Some,
        r is Some ==> r.unwrap() as int == first_true(found@, 0).unwrap(),
{
    let mut i: usize = 0;
    proof {
        lemma_first_true(found@, 0);
    }
    while i < found.len()
        invariant
            i <= found@.len(),
            first_true(found@, 0) == first_true(found@, i as int),
            forall|j: int| 0 <= j < i ==> !found@[j],
        decreases found@.len() - i,
    {
        if found[i] {
            return Some(i);
        }
        i += 1;
    }
    None
}

/// Whether `paths` and `found` are what a search through `n` places is told: for
/// each place looked at, from the first on, its path and whether a file is known
/// there. The search goes through all places unless a file is known in one.
pub open spec fn asked_in_order(n: int, paths: Seq<Seq<u8>>, found: Seq<bool>) -> bool {
    paths.len() == found.len() && found.len() <= n && (first_true(found, 0) is None
        ==> found.len() == n)
}

/// The path of the first place where a file is known.
pub open spec fn picked(paths: Seq<Seq<u8>>, found: Seq<bool>) -> Option<Seq<u8>> {
    match first_true(found, 0) {
        Some(i) => Some(paths[i]),
        None => None,
    }
}

/// The bytes of a path that may be there.
pub open spec fn option_bytes(path: Option<Vec<u8>>) -> Option<Seq<u8>> {
    match path {
        Some(p) => Some(p@),
        None => None,
    }
}

/// The first of `places`, each taken as a path from `dir` down, where the session
/// knows a file: the places are looked at in order, and `first_known` picks from
/// what the session says of them.
pub fn first_file<S: Session>(dir: &[u8], places: &Vec<Vec<Vec<u8>>>, session: &S) -> (r: Option<
    Vec<u8>,
>)
    ensures
        places@.len() == 0 ==> r is None,
        exists|paths: Seq<Seq<u8>>, found: Seq<bool>|
            asked_in_order(places@.len() as int, paths, found) && option_bytes(r)
                == #[trigger] picked(paths, found),
{
    let mut paths: Vec<Vec<u8>> = Vec::new();
    let mut found: Vec<bool> = Vec::new();
    let mut known = false;
    let mut i: usize = 0;
    while i < places.len() && !known
        invariant
            i <= places@.len(),
            paths@.len() == i,
            found@.len() == i,
            known ==> i > 0 && found@[i - 1],
            forall|k: int| 0 <= k < i && !(known && k == i - 1) ==> !found@[k],
        decreases places@.len() - i,
    {
        let place = &places[i];
        let mut path = slice_to_vec(dir);
        let mut j: usize = 0;
        while j < place.len()
            invariant
                j <= place@.len(),
            decreases place@.len() - j,
        {
            path = session.join(path.as_slice(), place[j].as_slice());
            j += 1;
        }
        known = session.contains_file(path.as_slice());
        paths.push(path);
        found.push(known);
        i += 1;
    }
    let ghost told = Seq::new(paths@.len(), |k: int| paths@[k]@);
    proof {
        lemma_first_true(found@, 0);
    }
    match first_known(found.as_slice()) {
        Some(k) => {
            let r = Some(slice_to_vec(paths[k].as_slice()));
            proof {
                assert(asked_in_order(places@.len() as int, told, found@));
                assert(option_bytes(r) == picked(told, found@));
            }
            r
        },
        None => {
            proof {
                assert(asked_in_order(places@.len() as int, told, found@));
                assert(option_bytes(None) == picked(told, found@));
            }
            None
        },
    }
}

/// The file of the module `name` that is declared in the directory `parentdir`: the
/// first of the two places of `module_file_candidates` where the session knows a
/// file.
pub fn get_module_file<S: Session>(name: &[u8], parentdir: &[u8], session: &S) -> (r: Option<
    Vec<u8>,
>)
    ensures
        exists|paths: Seq<Seq<u8>>, found: Seq<bool>|
            asked_in_order(2, paths, found) && option_bytes(r) == #[trigger] picked(paths, found),
{
    let places = module_file_candidates(name);
    assert(places@.len() == place_views(places@).len());
    first_file(parentdir, &places, session)
}

/// The root file of a crate, where `dependency` is the file that the resolver gives
/// for it, `has_std` says whether the sources of the standard library are at hand,
/// and `paths` and `found` are what the search through the places there is told: the
/// dependency's file where there is one; else the first place in the standard
/// library where a file is known.
pub open spec fn crate_file_choice(
    dependency: Option<Seq<u8>>,
    has_std: bool,
    paths: Seq<Seq<u8>>,
    found: Seq<bool>,
) -> Option<Seq<u8>> {
    match dependency {
        Some(path) => Some(path),
        None => if has_std {
            picked(paths, found)
        } else {
            None
        },
    }
}

/// The root file of the crate `name`, as seen from the file `from_path`: that of a
/// crate that the project depends on, or else that of a crate of the standard
/// library, in the first of the two places of `std_crate_candidates` where the
/// session knows a file.
pub fn get_crate_file<E: Session + DependencyResolver>(name: &[u8], from_path: &[u8], env: &E) -> (r:
    Option<Vec<u8>>)
    ensures
        exists|dependency: Option<Seq<u8>>, has_std: bool, paths: Seq<Seq<u8>>, found: Seq<bool>|
            asked_in_order(2, paths, found) && option_bytes(r) == #[trigger] crate_file_choice(
                dependency,
                has_std,
                paths,
                found,
            ),
{
    let ghost no_paths = Seq::new(2, |k: int| Seq::<u8>::empty());
    let ghost no_files = Seq::new(2, |k: int| false);
    proof {
        lemma_first_true(no_files, 0);
        assert(asked_in_order(2, no_paths, no_files));
    }
    if let Some(path) = env.dependency_file(name, from_path) {
        proof {
            assert(Some(path@) == crate_file_choice(Some(path@), false, no_paths, no_files));
        }
        return Some(path);
    }
    match env.std_path() {
        Some(std_path) => {
            let places = std_crate_candidates(name);
            assert(places@.len() == place_views(places@).len());
            let r = first_file(std_path.as_slice(), &places, env);
            proof {
                let (paths, found) = choose|paths: Seq<Seq<u8>>, found: Seq<bool>|
                    asked_in_order(places@.len() as int, paths, found) && option_bytes(r)
                        == #[trigger] picked(paths, found);
                assert(option_bytes(r) == crate_file_choice(None, true, paths, found));
            }
            r
        },
        None => {
            proof {
                assert(None::<Seq<u8>> == crate_file_choice(None, false, no_paths, no_files));
            }
            None
        },
    }
}

} // verus!
