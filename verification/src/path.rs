//! Paths of downloaded files: a directory joined with a single file name.

use vstd::prelude::*;
use vstd::string::StringExecFns;
use crate::text::{chars_of, concatenate, push_char};

verus! {

/// `dir` joined with `name`: a `/` goes between the two unless `dir` is empty
/// or already ends with one.
pub open spec fn spec_join(dir: Seq<char>, name: Seq<char>) -> Seq<char> {
    if dir.len() == 0 || dir.last() == '/' {
        dir + name
    } else {
        dir.push('/') + name
    }
}

/// `name` keeps a joined path inside its directory: it holds no `/` and is
/// not `..`.
pub open spec fn spec_is_local_name(name: Seq<char>) -> bool {
    &&& !name.contains('/')
    &&& !(name.len() == 2 && name[0] == '.' && name[1] == '.')
}

/// `dir` joined with `name` (as `PathBuf::push` joins a relative name on Unix).
pub fn join_path(dir: &str, name: &str) -> (res: String)
    ensures
        res@ == spec_join(dir@, name@),
{
    let dc = chars_of(dir);
    if dc.len() == 0 || dc[dc.len() - 1] == '/' {
        return concatenate(dir, name);
    }
    let mut res = String::from_str(dir);
    push_char(&mut res, '/');
    res.append(name);
    res
}

/// Whether `name` keeps a joined path inside its directory (see [`spec_is_local_name`]).
pub fn is_local_name(name: &str) -> (res: bool)
    ensures
        res == spec_is_local_name(name@),
{
    let nc = chars_of(name);
    if nc.len() == 2 && nc[0] == '.' && nc[1] == '.' {
        return false;
    }
    let mut i: usize = 0;
    while i < nc.len()
        invariant
            i <= nc.len(),
            nc@ == name@,
            forall|k: int| 0 <= k < i ==> nc@[k] != '/',
        decreases nc.len() - i,
    {
        if nc[i] == '/' {
            return false;
        }
        i = i + 1;
    }
    true
}

/// A joined path begins with the directory, continues with at most a `/`, and
/// ends with the name.
pub proof fn lemma_join_stays_inside(dir: Seq<char>, name: Seq<char>)
    ensures
        spec_join(dir, name).subrange(0, dir.len() as int) == dir,
        spec_join(dir, name).len() == dir.len() + name.len() || (spec_join(dir, name).len()
            == dir.len() + 1 + name.len() && spec_join(dir, name)[dir.len() as int] == '/'),
        spec_join(dir, name).subrange(
            spec_join(dir, name).len() - name.len(),
            spec_join(dir, name).len() as int,
        ) == name,
{
    let j = spec_join(dir, name);
    assert(j.subrange(0, dir.len() as int) =~= dir);
    assert(j.subrange(j.len() - name.len(), j.len() as int) =~= name);
}

} // verus!
