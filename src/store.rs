//! The Store: one directory of installed extension files, holding at most one
//! file for each display name. The directory itself is read and written by the
//! host; this module decides what an install removes.
use crate::naming::{base_name_of, get_base_name};
use vstd::prelude::*;

verus! {

/// The names held by a list of strings.
pub open spec fn names_of(v: Seq<String>) -> Seq<Seq<char>> {
    v.map_values(|s: String| s@)
}

/// The files among `files` whose display name is `base`.
pub open spec fn with_base_name(files: Seq<Seq<char>>, base: Seq<char>) -> Seq<Seq<char>> {
    files.filter(|f: Seq<char>| base_name_of(f) == base)
}

/// The installed files that installing `name` replaces: every file with the
/// same display name, the same version included.
pub open spec fn superseded(files: Seq<Seq<char>>, name: Seq<char>) -> Seq<Seq<char>> {
    with_base_name(files, base_name_of(name))
}

/// The files of the Store after installing `name` into a Store that held
/// `files`: the superseded files are gone and `name` is there.
pub open spec fn after_install(files: Seq<Seq<char>>, name: Seq<char>) -> Set<Seq<char>> {
    files.to_set().difference(superseded(files, name).to_set()).insert(name)
}

/// A file listed in `files` is among those superseded by `name` exactly when
/// it has the display name of `name`.
proof fn lemma_superseded_contains(files: Seq<Seq<char>>, name: Seq<char>, f: Seq<char>)
    ensures
        superseded(files, name).contains(f) <==> files.contains(f) && base_name_of(f)
            == base_name_of(name),
{
    let p = |g: Seq<char>| base_name_of(g) == base_name_of(name);
    let kept = superseded(files, name);
    assert(kept == files.filter(p));
    if files.contains(f) && p(f) {
        let i = choose|i: int| 0 <= i < files.len() && files[i] == f;
        files.lemma_filter_contains(p, i);
    }
    if kept.contains(f) {
        let i = choose|i: int| 0 <= i < kept.len() && kept[i] == f;
        files.lemma_filter_pred(p, i);
        files.lemma_filter_contains_rev(p, f);
    }
}

/// After an install, the one file of the Store with the display name of the
/// installed file is that file.
pub proof fn lemma_install_leaves_one_version(files: Seq<Seq<char>>, name: Seq<char>)
    ensures
        after_install(files, name).filter(|f: Seq<char>| base_name_of(f) == base_name_of(name))
            == set![name],
{
    let after = after_install(files, name);
    let same = after.filter(|f: Seq<char>| base_name_of(f) == base_name_of(name));
    assert forall|f: Seq<char>| #[trigger] same.contains(f) <==> f == name by {
        lemma_superseded_contains(files, name, f);
    }
    assert(same =~= set![name]);
}

/// Installing a file a second time leaves the Store as the first install left
/// it: `listing` is what the Store holds after the first install.
pub proof fn lemma_install_is_idempotent(
    files: Seq<Seq<char>>,
    listing: Seq<Seq<char>>,
    name: Seq<char>,
)
    requires
        listing.to_set() == after_install(files, name),
    ensures
        after_install(listing, name) == after_install(files, name),
        after_install(listing, name).filter(|f: Seq<char>| base_name_of(f) == base_name_of(name))
            == set![name],
{
    let after = after_install(files, name);
    assert forall|f: Seq<char>| #[trigger] after_install(listing, name).contains(f) <==> after.contains(f) by {
        lemma_superseded_contains(files, name, f);
        lemma_superseded_contains(listing, name, f);
        assert(listing.to_set().contains(f) <==> listing.contains(f));
    }
    assert(after_install(listing, name) =~= after);
    lemma_install_leaves_one_version(listing, name);
}

/// The files among `installed` whose display name is `base_name`, in the
/// order in which they are listed.
pub fn clean_old_versions(installed: &Vec<String>, base_name: &str) -> (r: Vec<String>)
    ensures
        names_of(r@) == with_base_name(names_of(installed@), base_name@),
{
    let base = String::from_str(base_name);
    let mut out: Vec<String> = Vec::new();
    let mut i: usize = 0;
    while i < installed.len()
        invariant
            i <= installed@.len(),
            base@ == base_name@,
            names_of(out@) == with_base_name(names_of(installed@.subrange(0, i as int)), base_name@),
        decreases installed@.len() - i,
    {
        let file_name = &installed[i];
        let b = get_base_name(file_name.as_str());
        let ghost before = names_of(installed@.subrange(0, i as int));
        proof {
            assert(names_of(installed@.subrange(0, i + 1)) =~= before.push(file_name@));
            before.lemma_filter_push(file_name@, |f: Seq<char>| base_name_of(f) == base_name@);
        }
        if b == base {
            out.push(file_name.clone());
            assert(names_of(out@) =~= with_base_name(before, base_name@).push(file_name@));
        }
        i = i + 1;
    }
    assert(installed@.subrange(0, installed@.len() as int) =~= installed@);
    out
}

/// The installed files to remove before `name` is written, so that one
/// version of each extension stays installed.
pub fn handle_single_version_constraint(name: &String, installed: &Vec<String>) -> (r: Vec<String>)
    ensures
        names_of(r@) == superseded(names_of(installed@), name@),
{
    let base_name = get_base_name(name.as_str());
    clean_old_versions(installed, base_name.as_str())
}

} // verus!
