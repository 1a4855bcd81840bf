//! Conversions between strings and character vectors, and the joining of
//! paths, used by the string-building code of the library.
use vstd::prelude::*;

verus! {

/// The characters of `s`, in order (`str::chars` collected into a `Vec`).
#[verifier::external_body]
pub(crate) fn chars_of(s: &str) -> (r: Vec<char>)
    ensures
        r@ == s@,
{
    s.chars().collect()
}

/// The string made of the characters of `cs`, in order (`String: FromIterator<&char>`).
#[verifier::external_body]
pub(crate) fn string_of(cs: &Vec<char>) -> (r: String)
    ensures
        r@ == cs@,
{
    cs.iter().collect()
}

/// The path of `file` under directory `dir`, joined with `/` as
/// `Path::join` does on Unix: a file path that starts at the root replaces
/// the directory; otherwise the file follows the directory, with a `/`
/// between them unless the directory is empty or already ends in one.
pub open spec fn path_join(dir: Seq<char>, file: Seq<char>) -> Seq<char> {
    if file.len() > 0 && file[0] == '/' {
        file
    } else if dir.len() == 0 || dir.last() == '/' {
        dir + file
    } else {
        dir + seq!['/'] + file
    }
}

/// Joins a file name to a directory path (see `path_join`).
pub fn join_path(dir: &str, file: &str) -> (r: String)
    ensures
        r@ == path_join(dir@, file@),
{
    let f = chars_of(file);
    if f.len() > 0 && f[0] == '/' {
        return string_of(&f);
    }
    let mut out = chars_of(dir);
    if out.len() > 0 && out[out.len() - 1] != '/' {
        out.push('/');
    }
    let ghost head = out@;
    let mut i: usize = 0;
    while i < f.len()
        invariant
            0 <= i <= f@.len(),
            out@ == head + f@.subrange(0, i as int),
        decreases f@.len() - i,
    {
        out.push(f[i]);
        i = i + 1;
        proof {
            assert(f@.subrange(0, i as int) =~= f@.subrange(0, i - 1).push(f@[i - 1]));
        }
    }
    proof {
        assert(f@.subrange(0, f@.len() as int) =~= f@);
        if dir@.len() > 0 && dir@.last() != '/' {
            assert(head =~= dir@ + seq!['/']);
        }
    }
    string_of(&out)
}

} // verus!
