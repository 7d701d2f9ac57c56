//! Device-local persisted state.
//!
//! A device keeps one JSON document per environment in its state
//! directory, named `state.<environment>.json`, rewritten after a
//! successful create or update cycle and deleted after a destroy.  When
//! asked for its status, the device reports one content hash per state
//! file it holds; reading the directory happens outside the library, the
//! naming and the report building live here.

use vstd::prelude::*;

use crate::drift::{document_hash, md5_of};
use crate::wire::StateHash;

verus! {

/// The state file of an environment: `state.<environment>.json`.
pub open spec fn state_file_name_text(env: Seq<char>) -> Seq<char> {
    "state."@ + env + ".json"@
}

/// Builds an environment's state file name.
pub fn state_file_name(environment: &str) -> (r: String)
    ensures
        r@ == state_file_name_text(environment@),
{
    let mut r: String = "state.".to_owned();
    r.append(environment);
    r.append(".json");
    r
}

/// An ASCII letter.
pub open spec fn is_ascii_alpha(c: char) -> bool {
    ('a' <= c && c <= 'z') || ('A' <= c && c <= 'Z')
}

/// A name an environment may carry in a state file: one or more ASCII
/// letters.
pub open spec fn is_env_name(env: Seq<char>) -> bool {
    &&& env.len() > 0
    &&& forall|i: int| 0 <= i < env.len() ==> is_ascii_alpha(env[i])
}

/// The environment a file name names, when the file is a state file.
pub open spec fn parsed_env(name: Seq<char>) -> Option<Seq<char>> {
    if name.len() >= 12 && name.subrange(0, 6) == "state."@ && name.subrange(
        name.len() - 5,
        name.len() as int,
    ) == ".json"@ && is_env_name(name.subrange(6, name.len() - 5)) {
        Some(name.subrange(6, name.len() - 5))
    } else {
        None
    }
}

/// Reads the environment name out of a state file name; any other file in
/// the state directory names nothing.
pub fn environment_of_state_file(name: &str) -> (r: Option<String>)
    ensures
        match r {
            Some(env) => parsed_env(name@) == Some(env@),
            None => parsed_env(name@) is None,
        },
{
    let prefix: String = "state.".to_owned();
    let suffix: String = ".json".to_owned();
    proof {
        reveal_strlit("state.");
        reveal_strlit(".json");
        assert(prefix@ =~= "state."@);
        assert(suffix@ =~= ".json"@);
    }
    let len = name.unicode_len();
    if len < 12 {
        return None;
    }
    if !name.substring_char(0, 6).to_owned().eq(&prefix) {
        return None;
    }
    if !name.substring_char(len - 5, len).to_owned().eq(&suffix) {
        return None;
    }
    let env = name.substring_char(6, len - 5);
    let n = env.unicode_len();
    let mut i: usize = 0;
    while i < n
        invariant
            i <= n,
            n == env@.len(),
            n == name@.len() - 11,
            env@ == name@.subrange(6, name@.len() - 5),
            forall|j: int| 0 <= j < i ==> is_ascii_alpha(#[trigger] env@[j]),
        decreases n - i,
    {
        let c = env.get_char(i);
        let lower = 'a' <= c && c <= 'z';
        let upper = 'A' <= c && c <= 'Z';
        if !lower && !upper {
            return None;
        }
        i += 1;
    }
    Some(env.to_owned())
}

/// The status report owed for the files of the state directory, in
/// directory order: one entry per file whose name is a state file name,
/// carrying the content hash of that file.
pub open spec fn hashes_of_files(files: Seq<(Seq<char>, Seq<char>)>) -> Seq<(Seq<char>, Seq<u8>)>
    decreases files.len(),
{
    if files.len() == 0 {
        Seq::empty()
    } else {
        let rest = hashes_of_files(files.drop_last());
        match parsed_env(files.last().0) {
            Some(env) => rest.push((env, md5_of(files.last().1))),
            None => rest,
        }
    }
}

/// Builds the hash report from the state directory's files, each given as
/// its name and its content.
pub fn state_hashes_from_files(files: &Vec<(String, String)>) -> (r: Vec<(String, StateHash)>)
    ensures
        r.deep_view() == hashes_of_files(files.deep_view()),
{
    let mut out: Vec<(String, StateHash)> = Vec::new();
    let n = files.len();
    let mut i: usize = 0;
    while i < n
        invariant
            i <= n,
            n == files@.len(),
            files.deep_view().len() == files@.len(),
            forall|j: int| 0 <= j < files@.len() ==> #[trigger] files.deep_view()[j] == (
                files@[j].0@,
                files@[j].1@,
            ),
            out.deep_view() == hashes_of_files(files.deep_view().take(i as int)),
        decreases n - i,
    {
        let ghost prefix = files.deep_view().take(i as int);
        proof {
            assert(files.deep_view().take(i + 1) =~= prefix.push(files.deep_view()[i as int]));
            assert(files.deep_view().take(i + 1).drop_last() =~= prefix);
            assert(files.deep_view().take(i + 1).last() == files.deep_view()[i as int]);
        }
        match environment_of_state_file(files[i].0.as_str()) {
            Some(env) => {
                let ghost pre = out.deep_view();
                let h = document_hash(files[i].1.as_str());
                out.push((env, h));
                proof {
                    assert(out.deep_view() =~~= pre.push((env@, h@)));
                    assert(out.deep_view() =~~= hashes_of_files(files.deep_view().take(i + 1)));
                }
            },
            None => {
                proof {
                    assert(out.deep_view() =~= hashes_of_files(files.deep_view().take(i + 1)));
                }
            },
        }
        i += 1;
    }
    proof {
        assert(files.deep_view().take(n as int) =~= files.deep_view());
    }
    out
}

} // verus!
