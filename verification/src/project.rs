//! Project-root discovery.
//!
//! An infrastructure project is rooted at the nearest directory, walking
//! from the working directory up to the home directory, that holds a
//! `pyproject.toml`.  The walking and reading of directories happens
//! outside the library; the decisions live here.

use vstd::prelude::*;

verus! {

/// The listing holds the project marker file.
pub open spec fn has_marker(files: Seq<Seq<char>>) -> bool {
    exists|i: int| 0 <= i < files.len() && files[i] == "pyproject.toml"@
}

/// A directory is the project root when its listing holds
/// `pyproject.toml`.
pub fn is_project_root(file_names: &Vec<String>) -> (r: bool)
    ensures
        r == has_marker(file_names.deep_view()),
{
    let marker: String = "pyproject.toml".to_owned();
    proof {
        reveal_strlit("pyproject.toml");
        assert(marker@ =~= "pyproject.toml"@);
    }
    let n = file_names.len();
    let mut i: usize = 0;
    while i < n
        invariant
            i <= n,
            n == file_names@.len(),
            marker@ == "pyproject.toml"@,
            forall|j: int| 0 <= j < i ==> #[trigger] file_names.deep_view()[j]
                != "pyproject.toml"@,
        decreases n - i,
    {
        if file_names[i].eq(&marker) {
            assert(file_names.deep_view()[i as int] == "pyproject.toml"@);
            return true;
        }
        i += 1;
    }
    false
}

/// The first directory, scanning outward, whose listing holds the marker.
pub open spec fn first_root(dirs: Seq<(Seq<char>, Seq<Seq<char>>)>) -> Option<Seq<char>>
    decreases dirs.len(),
{
    if dirs.len() == 0 {
        None
    } else if has_marker(dirs.first().1) {
        Some(dirs.first().0)
    } else {
        first_root(dirs.drop_first())
    }
}

/// Finds the project root among the directories from the working
/// directory outward to the home directory, each given with its listing.
pub fn find_project_root(dirs: &Vec<(String, Vec<String>)>) -> (r: Option<String>)
    ensures
        match r {
            Some(root) => first_root(dirs.deep_view()) == Some(root@),
            None => first_root(dirs.deep_view()) is None,
        },
{
    let n = dirs.len();
    let mut i: usize = 0;
    proof {
        assert(dirs.deep_view().skip(0) =~= dirs.deep_view());
    }
    while i < n
        invariant
            i <= n,
            n == dirs@.len(),
            dirs.deep_view().len() == dirs@.len(),
            first_root(dirs.deep_view()) == first_root(dirs.deep_view().skip(i as int)),
        decreases n - i,
    {
        let ghost suffix = dirs.deep_view().skip(i as int);
        proof {
            assert(suffix.first() == dirs.deep_view()[i as int]);
            assert(suffix.drop_first() =~= dirs.deep_view().skip(i + 1));
            assert(dirs.deep_view()[i as int] == (dirs@[i as int].0@, dirs@[
                i as int
            ].1.deep_view()));
        }
        if is_project_root(&dirs[i].1) {
            return Some(dirs[i].0.clone());
        }
        i += 1;
    }
    proof {
        assert(dirs.deep_view().skip(n as int) =~= Seq::<(Seq<char>, Seq<Seq<char>>)>::empty());
    }
    None
}

} // verus!
