//! What a query command hands back: its exit status and the lines it printed.
use vstd::prelude::*;
use vstd::utf8::{decode_utf8, valid_utf8};

use crate::error::CollectError;
use crate::text::{string_of, string_views};

verus! {

/// How a query command ended: its exit code (`None` where it was ended by
/// a signal) and the bytes it printed on standard output.
pub struct CommandOutput {
    pub status: Option<i32>,
    pub stdout: Vec<u8>,
}

/// The pieces of `s` between newlines; there is always one more piece than
/// newlines.
pub open spec fn pieces(s: Seq<char>) -> Seq<Seq<char>>
    decreases s.len(),
{
    if s.len() == 0 {
        seq![seq![]]
    } else {
        let pre = pieces(s.drop_last());
        if s.last() == '\n' {
            pre.push(seq![])
        } else {
            pre.update(pre.len() - 1, pre.last().push(s.last()))
        }
    }
}

/// The lines of `s`: the pieces between newlines, where a newline at the
/// very end opens no further line.
pub open spec fn lines_of(s: Seq<char>) -> Seq<Seq<char>> {
    let p = pieces(s);
    if p.last().len() == 0 {
        p.drop_last()
    } else {
        p
    }
}

/// Splits `text` into its lines (see `lines_of`).
pub fn split_lines(text: &str) -> (r: Vec<String>)
    ensures
        string_views(r@) == lines_of(text@),
{
    let chars = crate::text::chars_of(text);
    let mut done: Vec<String> = Vec::new();
    let mut cur: Vec<char> = Vec::new();
    let mut i: usize = 0;
    while i < chars.len()
        invariant
            i <= chars.len(),
            chars@ == text@,
            pieces(chars@.take(i as int)) == string_views(done@).push(cur@),
        decreases chars.len() - i,
    {
        let c = chars[i];
        assert(chars@.take(i + 1).drop_last() =~= chars@.take(i as int));
        assert(chars@.take(i + 1).last() == c);
        let ghost old_done = string_views(done@);
        let ghost old_cur = cur@;
        if c == '\n' {
            let line = string_of(&cur);
            done.push(line);
            cur = Vec::new();
            assert(string_views(done@) =~= old_done.push(old_cur));
        } else {
            cur.push(c);
            let ghost p = old_done.push(old_cur);
            assert(p.update(p.len() - 1, p.last().push(c)) =~= old_done.push(cur@));
        }
        i = i + 1;
    }
    assert(chars@.take(chars.len() as int) =~= text@);
    if cur.len() > 0 {
        let ghost old_done = string_views(done@);
        let line = string_of(&cur);
        done.push(line);
        assert(string_views(done@) =~= old_done.push(cur@));
    } else {
        assert(string_views(done@).push(cur@).drop_last() =~= string_views(done@));
    }
    done
}

/// Relies on String::from_utf8: the bytes are taken as they are where they
/// are valid UTF-8, and refused otherwise.
#[verifier::external_body]
fn text_from_bytes(bytes: Vec<u8>) -> (r: Option<String>)
    ensures
        r is Some <==> valid_utf8(bytes@),
        r matches Some(s) ==> s@ == decode_utf8(bytes@),
{
    String::from_utf8(bytes).ok()
}

/// The lines that a query command printed, where it exited with status
/// zero and printed text.
pub fn output_lines(output: CommandOutput) -> (r: Result<Vec<String>, CollectError>)
    ensures
        output.status != Some(0i32) ==> r matches Err(CollectError::CollectionFailure(_)),
        output.status == Some(0i32) && !valid_utf8(output.stdout@) ==> r matches Err(
            CollectError::CollectionFailure(_),
        ),
        output.status == Some(0i32) && valid_utf8(output.stdout@) ==> (r matches Ok(v)
            && string_views(v@) == lines_of(decode_utf8(output.stdout@))),
{
    match output.status {
        Some(code) => {
            if code != 0 {
                return Err(
                    CollectError::CollectionFailure(
                        "query command exited with non-zero status".to_owned(),
                    ),
                );
            }
        },
        None => {
            return Err(
                CollectError::CollectionFailure("query command ended without exit status".to_owned()),
            );
        },
    }
    match text_from_bytes(output.stdout) {
        Some(text) => Ok(split_lines(text.as_str())),
        None => Err(
            CollectError::CollectionFailure("query command printed invalid UTF-8".to_owned()),
        ),
    }
}

} // verus!
