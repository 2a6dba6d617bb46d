//! The ingestion endpoint's logic: validating a batch body and splitting it
//! into commands.
//!
//! A batch is the raw body of one HTTP request. It must decode as UTF-8 and
//! must not contain a carriage-return character; otherwise the whole batch is
//! rejected and nothing is enqueued. An accepted batch is split on line-feed
//! characters and each non-empty segment is enqueued as one command, in
//! order.

use vstd::prelude::*;
use vstd::utf8::*;
use vstd::string::{StrSliceExecFns, StringExecFns};
use crate::queue::{seq_views, valid_command, CommandQueue};

verus! {

/// The index of the first line-feed in `t`, or `t.len()` if there is none.
pub open spec fn first_newline(t: Seq<char>) -> int
    decreases t.len(),
{
    if t.len() == 0 {
        0
    } else if t[0] == '\n' {
        0
    } else {
        1 + first_newline(t.skip(1))
    }
}

/// The commands carried by the text `t`: the non-empty segments obtained by
/// splitting `t` on line-feed characters, in order.
pub open spec fn command_lines(t: Seq<char>) -> Seq<Seq<char>>
    decreases t.len(),
{
    if t.len() == 0 {
        Seq::empty()
    } else {
        let k = first_newline(t);
        if 0 <= k < t.len() {
            let seg = t.take(k);
            let rest = command_lines(t.skip(k + 1));
            if seg.len() == 0 {
                rest
            } else {
                seq![seg] + rest
            }
        } else {
            seq![t]
        }
    }
}

proof fn lemma_first_newline_bounds(t: Seq<char>)
    ensures
        0 <= first_newline(t) <= t.len(),
        forall|j: int| 0 <= j < first_newline(t) ==> t[j] != '\n',
        first_newline(t) < t.len() ==> t[first_newline(t)] == '\n',
    decreases t.len(),
{
    if t.len() == 0 {
    } else if t[0] == '\n' {
    } else {
        lemma_first_newline_bounds(t.skip(1));
        assert forall|j: int| 0 <= j < first_newline(t) implies t[j] != '\n' by {
            if j > 0 {
                assert(t.skip(1)[j - 1] == t[j]);
            }
        }
        if first_newline(t) < t.len() {
            assert(t.skip(1)[first_newline(t) - 1] == t[first_newline(t)]);
        }
    }
}

proof fn lemma_first_newline_at(t: Seq<char>, k: int)
    requires
        0 <= k <= t.len(),
        forall|j: int| 0 <= j < k ==> t[j] != '\n',
        k < t.len() ==> t[k] == '\n',
    ensures
        first_newline(t) == k,
    decreases k,
{
    if k == 0 {
    } else {
        assert(t[0] != '\n');
        assert forall|j: int| 0 <= j < k - 1 implies t.skip(1)[j] != '\n' by {
            assert(t.skip(1)[j] == t[j + 1]);
        }
        if k - 1 < t.skip(1).len() {
            assert(t.skip(1)[k - 1] == t[k]);
        }
        lemma_first_newline_at(t.skip(1), k - 1);
    }
}

/// Unfolds `command_lines` at a segment boundary: if the characters of `t`
/// before position `k` hold no line-feed and `k` is either a line-feed or the
/// end of the text, the command list starts with that segment (when it is
/// non-empty) followed by the commands of the remainder.
proof fn lemma_command_lines_step(t: Seq<char>, k: int)
    requires
        0 <= k <= t.len(),
        forall|j: int| 0 <= j < k ==> t[j] != '\n',
        k < t.len() ==> t[k] == '\n',
    ensures
        k == t.len() && k == 0 ==> command_lines(t) == Seq::<Seq<char>>::empty(),
        k == t.len() && k > 0 ==> command_lines(t) == seq![t],
        k < t.len() && k == 0 ==> command_lines(t) == command_lines(t.skip(k + 1)),
        k < t.len() && k > 0 ==> command_lines(t) == seq![t.take(k)] + command_lines(
            t.skip(k + 1),
        ),
{
    lemma_first_newline_at(t, k);
    if k == t.len() {
        if k > 0 {
            assert(command_lines(t) == seq![t]);
        }
    } else {
        assert(t.take(k).len() == k);
    }
}

/// Every command split out of a text free of carriage-returns is well
/// formed: non-empty, with no line-feed and no carriage-return inside.
pub proof fn lemma_command_lines_valid(t: Seq<char>)
    requires
        !t.contains('\r'),
    ensures
        forall|i: int|
            0 <= i < command_lines(t).len() ==> valid_command(#[trigger] command_lines(t)[i]),
    decreases t.len(),
{
    if t.len() == 0 {
    } else {
        lemma_first_newline_bounds(t);
        let k = first_newline(t);
        let seg = t.take(k);
        assert forall|j: int| 0 <= j < seg.len() implies seg[j] != '\n' && seg[j] != '\r' by {
            assert(seg[j] == t[j]);
            assert(!t.contains('\r'));
            if t[j] == '\r' {
                assert(t.contains('\r'));
            }
        }
        assert(!seg.contains('\n'));
        assert(!seg.contains('\r'));
        if k < t.len() {
            let rest = t.skip(k + 1);
            assert forall|j: int| 0 <= j < rest.len() implies rest[j] != '\r' by {
                assert(rest[j] == t[j + k + 1]);
                if t[j + k + 1] == '\r' {
                    assert(t.contains('\r'));
                }
            }
            assert(!rest.contains('\r'));
            lemma_command_lines_valid(rest);
            if seg.len() > 0 {
                assert(valid_command(seg));
                assert forall|i: int|
                    0 <= i < command_lines(t).len() implies valid_command(
                    #[trigger] command_lines(t)[i],
                ) by {
                    if i == 0 {
                        assert(command_lines(t)[0] == seg);
                    } else {
                        assert(command_lines(t)[i] == command_lines(rest)[i - 1]);
                    }
                }
            } else {
                assert(command_lines(t) == command_lines(rest));
            }
        } else {
            assert(command_lines(t) == seq![t]);
            assert(seg =~= t);
            assert(valid_command(t));
            assert(command_lines(t)[0] == t);
        }
    }
}

proof fn lemma_encode_of_cr_has_cr_byte(chars: Seq<char>, i: int)
    requires
        0 <= i < chars.len(),
        chars[i] == '\r',
    ensures
        encode_utf8(chars).contains(13u8),
    decreases i,
{
    if i == 0 {
        assert(('\r' as u32) == 13);
        assert(((13u32 & 0x7F) as u8) == 13u8) by (bit_vector);
        assert(encode_scalar(13)[0] == 13u8);
        assert(encode_utf8(chars)[0] == 13u8);
        assert(encode_utf8(chars).contains(13u8));
    } else {
        let head = encode_scalar(chars[0] as u32);
        let tail = encode_utf8(chars.drop_first());
        assert(chars.drop_first()[i - 1] == chars[i]);
        lemma_encode_of_cr_has_cr_byte(chars.drop_first(), i - 1);
        let j = choose|j: int| 0 <= j < tail.len() && tail[j] == 13u8;
        assert(encode_utf8(chars)[head.len() + j] == 13u8);
        assert(encode_utf8(chars).contains(13u8));
    }
}

proof fn lemma_cr_byte_decodes_to_cr_char(bytes: Seq<u8>)
    requires
        valid_utf8(bytes),
        bytes.contains(13u8),
    ensures
        decode_utf8(bytes).contains('\r'),
    decreases bytes.len(),
{
    let j = choose|j: int| 0 <= j < bytes.len() && bytes[j] == 13u8;
    let width = length_of_first_scalar(bytes);
    let rest = pop_first_scalar(bytes);
    if j == 0 {
        assert(is_leading_byte_width_1(bytes[0]));
        assert(((13u8 & 0x7F) as u32) == 13u32) by (bit_vector);
        assert(decode_first_scalar(bytes) == 13u32);
        assert(('\r' as u32) == 13);
        char_u32_cast('\r', 13u32);
        assert(decode_utf8(bytes)[0] == '\r');
        assert(decode_utf8(bytes).contains('\r'));
    } else if j < width {
        // inside a multi-byte encoding only continuation bytes stand, and
        // those lie at 0x80 and above
        assert(is_continuation_byte(bytes[j]));
        assert(false);
    } else {
        assert(rest[j - width] == 13u8);
        assert(rest.contains(13u8));
        lemma_cr_byte_decodes_to_cr_char(rest);
        let i = choose|i: int| 0 <= i < decode_utf8(rest).len() && decode_utf8(rest)[i] == '\r';
        assert(decode_utf8(bytes)[i + 1] == '\r');
        assert(decode_utf8(bytes).contains('\r'));
    }
}

/// Law: in a valid UTF-8 body, the carriage-return character stands in the
/// decoded text exactly when the byte 13 stands among the bytes — an ASCII
/// byte never occurs inside a multi-byte encoding, so checking the decoded
/// text is the same as checking the wire bytes.
pub proof fn lemma_cr_byte_iff_cr_char(bytes: Seq<u8>)
    requires
        valid_utf8(bytes),
    ensures
        decode_utf8(bytes).contains('\r') <==> bytes.contains(13u8),
{
    if bytes.contains(13u8) {
        lemma_cr_byte_decodes_to_cr_char(bytes);
    }
    if decode_utf8(bytes).contains('\r') {
        decode_utf8_encode_utf8(bytes);
        let i = choose|i: int|
            0 <= i < decode_utf8(bytes).len() && decode_utf8(bytes)[i] == '\r';
        lemma_encode_of_cr_has_cr_byte(decode_utf8(bytes), i);
    }
}

/// Relies on core::str::from_utf8: it returns Ok exactly when the bytes are
/// valid UTF-8, and the resulting text is the decoding of those bytes.
#[verifier::external_body]
fn decode_body(bytes: &[u8]) -> (r: Option<String>)
    ensures
        r is Some <==> valid_utf8(bytes@),
        r matches Some(t) ==> t@ == decode_utf8(bytes@),
{
    match core::str::from_utf8(bytes) {
        Ok(t) => Some(t.to_owned()),
        Err(_) => None,
    }
}

/// Split a decoded batch body into its commands.
///
/// Returns `None` exactly when the text holds a carriage-return character;
/// otherwise the commands are the non-empty line-feed-separated segments of
/// the text, in order.
pub fn split_batch(text: &str) -> (r: Option<Vec<String>>)
    ensures
        r is None <==> text@.contains('\r'),
        r matches Some(cmds) ==> seq_views(cmds@) == command_lines(text@),
{
    let ghost t = text@;
    let n = text.unicode_len();
    let mut i: usize = 0;
    while i < n
        invariant
            n == t.len(),
            t == text@,
            i <= n,
            forall|j: int| 0 <= j < i ==> t[j] != '\r',
        decreases n - i,
    {
        if text.get_char(i) == '\r' {
            proof {
                assert(t.contains('\r')) by {
                    assert(t[i as int] == '\r');
                }
            }
            return None;
        }
        i += 1;
    }
    proof {
        assert(!t.contains('\r')) by {
            if t.contains('\r') {
                let j = choose|j: int| 0 <= j < t.len() && t[j] == '\r';
                assert(t[j] != '\r');
            }
        }
    }

    let mut out: Vec<String> = Vec::new();
    proof {
        assert(t.skip(0) =~= t);
        assert(seq_views(out@) + command_lines(t) =~= command_lines(t));
    }
    let mut start: usize = 0;
    let mut i: usize = 0;
    while i < n
        invariant
            n == t.len(),
            t == text@,
            start <= i <= n,
            forall|j: int| start <= j < i ==> t[j] != '\n',
            seq_views(out@) + command_lines(t.skip(start as int)) == command_lines(t),
        decreases n - i,
    {
        if text.get_char(i) == '\n' {
            proof {
                lemma_split_advance(t, start as int, i as int);
            }
            if start < i {
                let seg = String::from_str(text.substring_char(start, i));
                let ghost before = out@;
                out.push(seg);
                proof {
                    assert(seq_views(before.push(seg)) =~= seq_views(before).push(seg@));
                    assert(seq_views(before).push(seg@) + command_lines(t.skip(i + 1)) =~= (
                    seq_views(before) + (seq![t.subrange(start as int, i as int)] + command_lines(
                        t.skip(i + 1),
                    ))));
                }
            }
            start = i + 1;
        }
        i += 1;
    }
    proof {
        lemma_split_advance(t, start as int, n as int);
    }
    if start < n {
        let seg = String::from_str(text.substring_char(start, n));
        let ghost before = out@;
        out.push(seg);
        proof {
            assert(seg@ =~= t.skip(start as int));
            assert(seq_views(before.push(seg)) =~= seq_views(before).push(seg@));
            assert(seq_views(before).push(seg@) =~= seq_views(before) + seq![t.skip(start as int)]);
        }
    }
    proof {
        assert(command_lines(t.skip(n as int)) == Seq::<Seq<char>>::empty());
        assert(seq_views(out@) =~= command_lines(t));
    }
    Some(out)
}

/// Unfolds the commands of the tail beginning at `start` when the next
/// line-feed (or the end of the text) stands at position `stop`.
proof fn lemma_split_advance(t: Seq<char>, start: int, stop: int)
    requires
        0 <= start <= stop <= t.len(),
        forall|j: int| start <= j < stop ==> t[j] != '\n',
        stop < t.len() ==> t[stop] == '\n',
    ensures
        stop == t.len() && start == stop ==> command_lines(t.skip(start))
            == Seq::<Seq<char>>::empty(),
        stop == t.len() && start < stop ==> command_lines(t.skip(start)) == seq![t.skip(start)],
        stop < t.len() && start == stop ==> command_lines(t.skip(start)) == command_lines(
            t.skip(stop + 1),
        ),
        stop < t.len() && start < stop ==> command_lines(t.skip(start)) == seq![
            t.subrange(start, stop),
        ] + command_lines(t.skip(stop + 1)),
{
    let u = t.skip(start);
    let k = stop - start;
    assert forall|j: int| 0 <= j < k implies u[j] != '\n' by {
        assert(u[j] == t[j + start]);
    }
    if k < u.len() {
        assert(u[k] == t[stop]);
    }
    lemma_command_lines_step(u, k);
    assert(u.take(k) =~= t.subrange(start, stop));
    if stop < t.len() {
        assert(u.skip(k + 1) =~= t.skip(stop + 1));
    }
    if stop == t.len() && start < stop {
        assert(u.take(k) =~= u);
    }
}

/// The endpoint's answer for one batch: `Accepted` stands for `200 OK`,
/// `Rejected` for `400 Bad Request`.
#[derive(Clone, Copy, Debug, PartialEq, Eq, Structural)]
pub enum BatchStatus {
    Accepted,
    Rejected,
}

/// Handle one `POST /batch-queue` body.
///
/// A body that is not valid UTF-8, or whose text holds a carriage-return
/// character, is rejected whole: the queue is left unchanged. Otherwise
/// every non-empty line-feed-separated segment of the text is enqueued as
/// one command, in order, and the batch is accepted.
pub fn ingest_batch(queue: &mut CommandQueue, body: &[u8]) -> (status: BatchStatus)
    requires
        old(queue).wf(),
    ensures
        final(queue).wf(),
        !valid_utf8(body@) ==> status is Rejected && final(queue)@ == old(queue)@,
        valid_utf8(body@) && decode_utf8(body@).contains('\r') ==> status is Rejected
            && final(queue)@ == old(queue)@,
        valid_utf8(body@) && !decode_utf8(body@).contains('\r') ==> status is Accepted
            && final(queue)@ == old(queue)@ + command_lines(decode_utf8(body@)),
        body@.contains(13u8) ==> status is Rejected && final(queue)@ == old(queue)@,
{
    proof {
        if valid_utf8(body@) {
            lemma_cr_byte_iff_cr_char(body@);
        }
    }
    let text = match decode_body(body) {
        Some(text) => text,
        None => {
            return BatchStatus::Rejected;
        },
    };
    let commands = match split_batch(text.as_str()) {
        Some(commands) => commands,
        None => {
            return BatchStatus::Rejected;
        },
    };
    let ghost lines = command_lines(decode_utf8(body@));
    proof {
        lemma_command_lines_valid(text@);
        assert(old(queue)@ + lines.take(0) =~= old(queue)@);
    }
    let count = commands.len();
    let mut k: usize = 0;
    while k < count
        invariant
            queue.wf(),
            count == commands@.len(),
            k <= count,
            seq_views(commands@) == lines,
            forall|i: int| 0 <= i < lines.len() ==> valid_command(#[trigger] lines[i]),
            queue@ == old(queue)@ + lines.take(k as int),
        decreases count - k,
    {
        let command = commands[k].clone();
        proof {
            assert(command@ == seq_views(commands@)[k as int]);
        }
        queue.enqueue(command);
        proof {
            assert(old(queue)@ + lines.take(k + 1) =~= (old(queue)@ + lines.take(k as int)).push(
                lines[k as int],
            ));
        }
        k += 1;
    }
    proof {
        assert(lines.take(count as int) =~= lines);
    }
    BatchStatus::Accepted
}

/// Law: when two batches are accepted in sequence, the queue holds every
/// command of the first batch, in its own order, ahead of every command of
/// the second batch, in its own order. Since the queue is drained
/// first-in first-out, the relay writes them to the device in exactly that
/// union of the two per-request orders.
pub proof fn lemma_sequential_batches_keep_order(
    q0: Seq<Seq<char>>,
    t1: Seq<char>,
    t2: Seq<char>,
)
    ensures
        ({
            let q2 = (q0 + command_lines(t1)) + command_lines(t2);
            &&& q2.len() == q0.len() + command_lines(t1).len() + command_lines(t2).len()
            &&& forall|i: int|
                0 <= i < command_lines(t1).len() ==> q2[q0.len() + i] == #[trigger] command_lines(
                    t1,
                )[i]
            &&& forall|j: int|
                0 <= j < command_lines(t2).len() ==> q2[q0.len() + command_lines(t1).len() + j]
                    == #[trigger] command_lines(t2)[j]
        }),
{
}

} // verus!

