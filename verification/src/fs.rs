//! Writing lyrics files: the error a write can end in, and the name of the
//! temporary file a write goes through before it replaces the target.
use vstd::prelude::*;
use crate::providers::{decimal, decimal_of, push_all};
use crate::text::{chars_of, string_of};

verus! {

/// Why writing a lyrics file failed; each carries the system's message.
#[derive(Debug)]
pub enum FileStoreError {
    CreateDirectory(String),
    Write(String),
    Replace(String),
}

/// The temporary file beside `file_name` that a write goes through:
/// `.<file_name>.<timestamp_nanos>.<process_id>.tmp`. Hidden, and unique per
/// process and moment, so two writers never share one.
pub open spec fn temporary_name(file_name: Seq<char>, timestamp_nanos: u128, process_id: u32) -> Seq<char> {
    seq!['.'] + file_name + seq!['.'] + decimal(timestamp_nanos as nat) + seq!['.'] + decimal(
        process_id as nat,
    ) + ".tmp"@
}

/// The name of the temporary file a write of `file_name` goes through.
pub fn temporary_file_name(file_name: &str, timestamp_nanos: u128, process_id: u32) -> (r: String)
    ensures
        r@ == temporary_name(file_name@, timestamp_nanos, process_id),
{
    let mut out: Vec<char> = vec!['.'];
    push_all(&mut out, &chars_of(file_name));
    out.push('.');
    push_all(&mut out, &decimal_of(timestamp_nanos));
    out.push('.');
    push_all(&mut out, &decimal_of(process_id as u128));
    push_all(&mut out, &chars_of(".tmp"));
    assert(out@ =~= temporary_name(file_name@, timestamp_nanos, process_id));
    string_of(&out)
}

/// `name` placed in the directory `dir`, as `Path::join` does with `/` as
/// the separator: an absolute `name` (one starting with `/`) stands alone;
/// otherwise nothing is added when `dir` is empty or already ends with `/`,
/// and a `/` separates the two when it does not.
pub open spec fn join_path(dir: Seq<char>, name: Seq<char>) -> Seq<char> {
    if name.len() > 0 && name[0] == '/' {
        name
    } else if dir.len() == 0 {
        name
    } else if dir.last() == '/' {
        dir + name
    } else {
        dir + seq!['/'] + name
    }
}

/// `name` placed in the directory `dir`.
pub fn join_path_of(dir: &[char], name: &[char]) -> (r: Vec<char>)
    ensures
        r@ == join_path(dir@, name@),
{
    let mut out: Vec<char> = Vec::new();
    if name.len() > 0 && name[0] == '/' {
        push_all(&mut out, name);
        assert(out@ =~= join_path(dir@, name@));
        return out;
    }
    push_all(&mut out, dir);
    if dir.len() > 0 && dir[dir.len() - 1] != '/' {
        out.push('/');
    }
    push_all(&mut out, name);
    assert(out@ =~= join_path(dir@, name@));
    out
}

} // verus!
