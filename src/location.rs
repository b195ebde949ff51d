//! Where the game client keeps its configuration.
//!
//! A location is held as its sequence of path components, each one a plain
//! string (a prefix such as `C:` and the root count as components too).
use vstd::prelude::*;
use crate::naming::names_view;

verus! {

pub open spec fn documents_part() -> Seq<char> {
    seq!['D', 'o', 'c', 'u', 'm', 'e', 'n', 't', 's']
}

pub open spec fn games_part() -> Seq<char> {
    seq!['M', 'y', ' ', 'G', 'a', 'm', 'e', 's']
}

pub open spec fn client_part() -> Seq<char> {
    seq!['P', 'a', 't', 'h', ' ', 'o', 'f', ' ', 'E', 'x', 'i', 'l', 'e']
}

/// No home directory could be found for the user.
#[derive(Debug, Clone, Copy, PartialEq, Eq)]
pub struct DirectoryError;

/// The documents directory, given what the platform reports: its own
/// documents directory when it names one, else `Documents` under the home
/// directory; an error when neither is known.
pub fn pick_documents_dir(documents: Option<Vec<String>>, home: Option<Vec<String>>) -> (r: Result<
    Vec<String>,
    DirectoryError,
>)
    ensures
        documents is Some ==> r is Ok && r->Ok_0@ == documents->0@,
        documents is None && home is Some ==> r is Ok && names_view(r->Ok_0@) == names_view(
            home->0@,
        ).push(documents_part()),
        documents is None && home is None ==> r is Err,
{
    match documents {
        Some(d) => Ok(d),
        None => match home {
            Some(h) => {
                proof {
                    reveal_strlit("Documents");
                }
                let mut p = h;
                let ghost before = p@;
                assert("Documents"@ =~= documents_part());
                p.push("Documents".to_owned());
                assert(names_view(p@) =~= names_view(before).push(documents_part()));
                Ok(p)
            },
            None => Err(DirectoryError),
        },
    }
}

/// The configuration directory of the game client, inside the documents
/// directory: `<documents>/My Games/Path of Exile`.
pub fn poe_dir_in(documents: &Vec<String>) -> (r: Vec<String>)
    ensures
        names_view(r@) == names_view(documents@).push(games_part()).push(client_part()),
{
    proof {
        reveal_strlit("My Games");
        reveal_strlit("Path of Exile");
    }
    let mut r: Vec<String> = Vec::new();
    let mut i: usize = 0;
    while i < documents.len()
        invariant
            i <= documents.len(),
            r@ == documents@.subrange(0, i as int),
        decreases documents.len() - i,
    {
        r.push(documents[i].clone());
        i = i + 1;
        assert(r@ =~= documents@.subrange(0, i as int));
    }
    assert(documents@.subrange(0, documents.len() as int) =~= documents@);
    let ghost base = r@;
    assert("My Games"@ =~= games_part());
    assert("Path of Exile"@ =~= client_part());
    r.push("My Games".to_owned());
    r.push("Path of Exile".to_owned());
    assert(names_view(r@) =~= names_view(base).push(games_part()).push(client_part()));
    r
}

/// Where the configuration directory is, and whether this run created it.
pub struct DeterminePoeDirResult {
    pub poedir: String,
    pub directory_created: bool,
}

} // verus!
