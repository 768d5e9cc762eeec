//! Finding the project a command works on: the directory given, or the nearest one
//! that is the root of a git repository, or the current directory. Looking at the file
//! system is left to the program; the choice is made here.

use vstd::prelude::*;

verus! {

/// `i` is the first directory of the chain that holds `.git`.
pub open spec fn first_with_git(chain: Seq<(String, bool)>, i: int) -> bool {
    0 <= i < chain.len() && chain[i].1 && forall|j: int| 0 <= j < i ==> !(#[trigger] chain[j]).1
}

/// The repository root: given the starting directory and then each parent in turn,
/// each with whether it holds a `.git` entry, the first that does.
pub fn find_git_root(chain: &[(String, bool)]) -> (r: Option<String>)
    ensures
        match r {
            Some(d) => exists|i: int| first_with_git(chain@, i) && d@ == chain@[i].0@,
            None => forall|i: int| 0 <= i < chain@.len() ==> !(#[trigger] chain@[i]).1,
        },
{
    let mut i: usize = 0;
    while i < chain.len()
        invariant
            i <= chain.len(),
            forall|j: int| 0 <= j < i ==> !(#[trigger] chain@[j]).1,
        decreases chain.len() - i,
    {
        if chain[i].1 {
            let d = chain[i].0.clone();
            assert(first_with_git(chain@, i as int));
            return Some(d);
        }
        i = i + 1;
    }
    None
}

/// The project directory: the one given on the command line; else the nearest of
/// the current directory and its ancestors that holds `.git` (`chain` lists them,
/// starting with the current directory, each with whether it holds `.git`); else
/// the current directory.
pub fn resolve_project_dir(cli_project: Option<String>, cwd: String, chain: &[(String, bool)]) -> (r: String)
    ensures
        match cli_project {
            Some(p) => r@ == p@,
            None => if exists|i: int| first_with_git(chain@, i) {
                exists|i: int| first_with_git(chain@, i) && r@ == chain@[i].0@
            } else {
                r@ == cwd@
            },
        },
{
    match cli_project {
        Some(p) => p,
        None => match find_git_root(chain) {
            Some(g) => g,
            None => {
                assert forall|i: int| !first_with_git(chain@, i) by {
                    if 0 <= i < chain@.len() {
                        assert(!chain@[i].1);
                    }
                }
                cwd
            },
        },
    }
}

} // verus!
