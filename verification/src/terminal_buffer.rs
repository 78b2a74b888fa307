//! Captured terminal output, capped in size and cut at a character boundary.

use vstd::prelude::*;
use vstd::utf8::*;

verus! {

/// The text that `String::from_utf8_lossy` makes of bytes that are not valid UTF-8.
pub uninterp spec fn utf8_lossy(bytes: Seq<u8>) -> Seq<char>;

/// The text of captured bytes: what they encode, with replacements where they encode nothing.
pub open spec fn captured_text(bytes: Seq<u8>) -> Seq<char> {
    if valid_utf8(bytes) {
        decode_utf8(bytes)
    } else {
        utf8_lossy(bytes)
    }
}

/// Calls `String::from_utf8_lossy`: bytes that are valid UTF-8 come out as the text that they
/// encode, and for other bytes the text depends on them alone.
#[verifier::external_body]
fn lossy_text(bytes: &Vec<u8>) -> (text: String)
    ensures
        valid_utf8(bytes@) ==> text@ == decode_utf8(bytes@),
        !valid_utf8(bytes@) ==> text@ == utf8_lossy(bytes@),
{
    String::from_utf8_lossy(bytes).into_owned()
}

/// `bytes` from the first position at which a UTF-8 character starts.
pub open spec fn from_first_scalar(bytes: Seq<u8>) -> Seq<u8>
    decreases bytes.len(),
{
    if bytes.len() == 0 || valid_first_scalar(bytes) {
        bytes
    } else {
        from_first_scalar(bytes.skip(1))
    }
}

/// The end of `bytes` that is kept under a cap of `limit` bytes: all of them if they fit, else
/// the last `limit` of them, from the first character start on.
pub open spec fn capped(bytes: Seq<u8>, limit: nat) -> Seq<u8> {
    if bytes.len() > limit {
        from_first_scalar(bytes.skip(bytes.len() - limit))
    } else {
        bytes
    }
}

/// What is kept is a tail of the bytes.
pub proof fn first_scalar_tail_is_suffix(bytes: Seq<u8>)
    ensures
        from_first_scalar(bytes).is_suffix_of(bytes),
        from_first_scalar(bytes).len() == 0 || valid_first_scalar(from_first_scalar(bytes)),
    decreases bytes.len(),
{
    let kept = from_first_scalar(bytes);
    if bytes.len() == 0 || valid_first_scalar(bytes) {
        assert(bytes.subrange(0, bytes.len() as int) =~= bytes);
    } else {
        first_scalar_tail_is_suffix(bytes.skip(1));
        assert(bytes.skip(1).subrange(
            bytes.len() - 1 - kept.len(),
            bytes.len() - 1,
        ) =~= bytes.subrange(bytes.len() - kept.len(), bytes.len() as int));
    }
}

/// The cap holds, what is kept is the end of the bytes, and after a cut it starts with a
/// character or is empty.
pub proof fn capped_is_short_suffix(bytes: Seq<u8>, limit: nat)
    ensures
        capped(bytes, limit).len() <= limit,
        capped(bytes, limit).is_suffix_of(bytes),
        bytes.len() > limit ==> capped(bytes, limit).len() == 0 || valid_first_scalar(
            capped(bytes, limit),
        ),
{
    let kept = capped(bytes, limit);
    if bytes.len() > limit {
        let tail = bytes.skip(bytes.len() - limit);
        first_scalar_tail_is_suffix(tail);
        assert(tail.subrange(tail.len() - kept.len(), tail.len() as int) =~= bytes.subrange(
            bytes.len() - kept.len(),
            bytes.len() as int,
        ));
    } else {
        assert(bytes.subrange(0, bytes.len() as int) =~= bytes);
    }
}

proof fn tail_of_valid_is_valid(bytes: Seq<u8>, from: int)
    requires
        valid_utf8(bytes),
        0 <= from <= bytes.len(),
    ensures
        valid_utf8(from_first_scalar(bytes.skip(from))),
    decreases bytes.len() - from,
{
    let tail = bytes.skip(from);
    if from < bytes.len() {
        is_char_boundary_iff_not_is_continuation_byte(bytes, from);
        if is_char_boundary(bytes, from) {
            valid_utf8_split(bytes, from);
            assert(bytes.subrange(from, bytes.len() as int) =~= tail);
        } else {
            assert(is_continuation_byte(tail[0]));
            assert(tail.skip(1) =~= bytes.skip(from + 1));
            tail_of_valid_is_valid(bytes, from + 1);
        }
    }
}

/// Cutting valid UTF-8 leaves valid UTF-8: no character is split.
pub proof fn capping_keeps_characters_whole(bytes: Seq<u8>, limit: nat)
    requires
        valid_utf8(bytes),
    ensures
        valid_utf8(capped(bytes, limit)),
{
    if bytes.len() > limit {
        tail_of_valid_is_valid(bytes, bytes.len() - limit);
    }
}

/// No character starts among continuation bytes.
proof fn no_scalar_in_continuation(bytes: Seq<u8>)
    requires
        forall|i: int| 0 <= i < bytes.len() ==> is_continuation_byte(#[trigger] bytes[i]),
    ensures
        from_first_scalar(bytes).len() == 0,
    decreases bytes.len(),
{
    if bytes.len() > 0 {
        assert(is_continuation_byte(bytes[0]));
        assert forall|i: int| 0 <= i < bytes.skip(1).len() implies is_continuation_byte(
            #[trigger] bytes.skip(1)[i],
        ) by {
            assert(is_continuation_byte(bytes[i + 1]));
        }
        no_scalar_in_continuation(bytes.skip(1));
    }
}

/// Where the first character starts does not depend on what follows, once there is one.
proof fn first_scalar_stays(bytes: Seq<u8>, more: Seq<u8>)
    requires
        from_first_scalar(bytes).len() > 0,
    ensures
        from_first_scalar(bytes + more) == from_first_scalar(bytes) + more,
    decreases bytes.len(),
{
    let all = bytes + more;
    if valid_first_scalar(bytes) {
        assert(valid_first_scalar(all));
    } else {
        if valid_first_scalar(all) {
            let rest = bytes.skip(1);
            assert forall|i: int| 0 <= i < rest.len() implies is_continuation_byte(
                #[trigger] rest[i],
            ) by {
                assert(rest[i] == all[i + 1]);
            }
            no_scalar_in_continuation(rest);
        }
        first_scalar_stays(bytes.skip(1), more);
        assert(all.skip(1) =~= bytes.skip(1) + more);
    }
}

/// The first character is still the first one after bytes before it are dropped.
proof fn dropping_before_first_scalar(bytes: Seq<u8>, k: int)
    requires
        0 <= k <= bytes.len() - from_first_scalar(bytes).len(),
    ensures
        from_first_scalar(bytes.skip(k)) == from_first_scalar(bytes),
    decreases k,
{
    if k == 0 {
        assert(bytes.skip(0) =~= bytes);
    } else {
        dropping_before_first_scalar(bytes.skip(1), k - 1);
        assert(bytes.skip(1).skip(k - 1) =~= bytes.skip(k));
    }
}

/// Capturing output in pieces keeps the same as capturing it at once. This leaves out the case
/// that the first piece was too long, nothing of it could be kept, and the second piece fits.
pub proof fn pieces_add_up(a: Seq<u8>, b: Seq<u8>, limit: nat)
    requires
        a.len() <= limit || capped(a, limit).len() > 0 || b.len() > limit,
    ensures
        capped(capped(a, limit) + b, limit) == capped(a + b, limit),
{
    let kept = capped(a, limit);
    capped_is_short_suffix(a, limit);
    if a.len() > limit {
        let tail = a.skip(a.len() - limit);
        first_scalar_tail_is_suffix(tail);
        if kept.len() + b.len() > limit {
            assert((kept + b).skip((kept + b).len() - limit) =~= (a + b).skip(
                (a + b).len() - limit,
            )) by {
                assert(kept =~= a.subrange(a.len() - kept.len(), a.len() as int));
            }
        } else {
            let m = b.len() as int;
            assert((a + b).skip((a + b).len() - limit) =~= tail.skip(m) + b);
            dropping_before_first_scalar(tail, m);
            first_scalar_stays(tail.skip(m), b);
        }
    }
}

/// Continuation bytes before other bytes are passed over.
proof fn continuation_is_passed_over(bytes: Seq<u8>, more: Seq<u8>)
    requires
        forall|i: int| 0 <= i < bytes.len() ==> is_continuation_byte(#[trigger] bytes[i]),
    ensures
        from_first_scalar(bytes + more) == from_first_scalar(more),
    decreases bytes.len(),
{
    if bytes.len() == 0 {
        assert(bytes + more =~= more);
    } else {
        assert(is_continuation_byte((bytes + more)[0]));
        let rest = bytes.skip(1);
        assert forall|i: int| 0 <= i < rest.len() implies is_continuation_byte(
            #[trigger] rest[i],
        ) by {
            assert(is_continuation_byte(bytes[i + 1]));
        }
        continuation_is_passed_over(rest, more);
        assert((bytes + more).skip(1) =~= rest + more);
    }
}

/// The end of a text in which no character starts is made of continuation bytes.
proof fn end_without_scalar(bytes: Seq<u8>, from: int)
    requires
        valid_utf8(bytes),
        0 <= from <= bytes.len(),
        from_first_scalar(bytes.skip(from)).len() == 0,
    ensures
        forall|i: int| from <= i < bytes.len() ==> is_continuation_byte(#[trigger] bytes[i]),
{
    let tail = bytes.skip(from);
    assert forall|i: int| from <= i < bytes.len() implies is_continuation_byte(
        #[trigger] bytes[i],
    ) by {
        is_char_boundary_iff_not_is_continuation_byte(bytes, i);
        if is_char_boundary(bytes, i) {
            valid_utf8_split(bytes, i);
            assert(bytes.subrange(i, bytes.len() as int) =~= bytes.skip(i));
            dropping_before_first_scalar(tail, i - from);
            assert(tail.skip(i - from) =~= bytes.skip(i));
        }
    }
}

/// Capturing text in pieces that are themselves text keeps the same as capturing it at once.
pub proof fn pieces_of_text_add_up(a: Seq<u8>, b: Seq<u8>, limit: nat)
    requires
        valid_utf8(a),
        valid_utf8(b),
    ensures
        capped(capped(a, limit) + b, limit) == capped(a + b, limit),
{
    if a.len() <= limit || capped(a, limit).len() > 0 || b.len() > limit {
        pieces_add_up(a, b, limit);
    } else {
        let from = a.len() - limit;
        end_without_scalar(a, from);
        let left = a.skip(from + b.len());
        assert forall|i: int| 0 <= i < left.len() implies is_continuation_byte(
            #[trigger] left[i],
        ) by {
            assert(is_continuation_byte(a[i + from + b.len()]));
        }
        continuation_is_passed_over(left, b);
        assert((a + b).skip((a + b).len() - limit) =~= left + b);
        assert(capped(a, limit) + b =~= b);
        assert(from_first_scalar(b) == b);
    }
}

/// The output is the whole of what was captured: encoding it gives back the bytes, where these
/// encode anything; other bytes come out as they are replaced.
pub proof fn output_encodes_data(bytes: Seq<u8>)
    ensures
        valid_utf8(bytes) ==> encode_utf8(captured_text(bytes)) == bytes,
        !valid_utf8(bytes) ==> captured_text(bytes) == utf8_lossy(bytes),
{
    if valid_utf8(bytes) {
        decode_utf8_encode_utf8(bytes);
    }
}

/// Text that is printed and fits under the cap comes out as it is.
pub proof fn printed_text_is_shown(text: Seq<char>, limit: nat)
    requires
        encode_utf8(text).len() <= limit,
    ensures
        captured_text(capped(encode_utf8(text), limit)) == text,
{
    encode_utf8_valid_utf8(text);
    encode_utf8_decode_utf8(text);
}

/// Of text that does not fit under the cap, the end comes out.
pub proof fn end_of_text_is_shown(text: Seq<char>, limit: nat)
    ensures
        captured_text(capped(encode_utf8(text), limit)).is_suffix_of(text),
{
    let bytes = encode_utf8(text);
    encode_utf8_valid_utf8(text);
    encode_utf8_decode_utf8(text);
    let kept = capped(bytes, limit);
    capped_is_short_suffix(bytes, limit);
    capping_keeps_characters_whole(bytes, limit);
    let at = bytes.len() - kept.len();
    if bytes.len() <= limit {
        assert(text.subrange(0, text.len() as int) =~= text);
    } else {
        is_char_boundary_start_end_of_seq(bytes);
        if at < bytes.len() {
            is_char_boundary_iff_not_is_continuation_byte(bytes, at);
            assert(bytes[at] == kept[0]);
            assert(!is_continuation_byte(kept[0]));
        }
        assert(is_char_boundary(bytes, at));
        decode_utf8_split(bytes, at);
        assert(bytes.subrange(at, bytes.len() as int) =~= kept);
        let shown = decode_utf8(kept);
        let front = decode_utf8(bytes.subrange(0, at));
        assert(text == front + shown);
        assert(text.subrange(text.len() - shown.len(), text.len() as int) =~= shown);
    }
}

/// No more is dropped than has to be: all bytes that fit are kept, and otherwise every character
/// that starts within the last `limit` bytes.
pub proof fn nothing_is_dropped_needlessly(bytes: Seq<u8>, limit: nat, at: int)
    ensures
        bytes.len() <= limit ==> capped(bytes, limit) == bytes,
        bytes.len() - limit <= at < bytes.len() - capped(bytes, limit).len() && bytes.len() > limit
            ==> !valid_first_scalar(bytes.skip(at)),
{
    if bytes.len() > limit {
        let from = bytes.len() - limit;
        let tail = bytes.skip(from);
        if from <= at < bytes.len() - capped(bytes, limit).len() {
            first_scalar_tail_is_suffix(tail);
            dropping_before_first_scalar(tail, at - from);
            assert(tail.skip(at - from) =~= bytes.skip(at));
        }
    }
}

/// Whether a UTF-8 character starts at `data[at]`.
fn scalar_starts_at(data: &Vec<u8>, at: usize) -> (starts: bool)
    requires
        at < data.len(),
    ensures
        starts == valid_first_scalar(data@.skip(at as int)),
{
    let ghost tail = data@.skip(at as int);
    let left: usize = data.len() - at;
    let b0 = data[at];
    assert(tail[0] == b0);
    if b0 <= 0x7f {
        assert((b0 & 0x7f) as u32 <= 0x7f) by (bit_vector);
        return true;
    }
    if b0 < 0xc0 || b0 > 0xf7 || left < 2 {
        return false;
    }
    let b1 = data[at + 1];
    assert(tail[1] == b1);
    if b1 < 0x80 || b1 > 0xbf {
        return false;
    }
    if b0 <= 0xdf {
        let c: u32 = (((b0 & 0x1f) as u32) << 6) | ((b1 & 0x3f) as u32);
        assert(c == codepoint_width_2(b0, b1));
        assert((((b0 & 0x1f) as u32) << 6) | ((b1 & 0x3f) as u32) <= 0x7ff) by (bit_vector);
        return c >= 0x80;
    }
    if left < 3 {
        return false;
    }
    let b2 = data[at + 2];
    assert(tail[2] == b2);
    if b2 < 0x80 || b2 > 0xbf {
        return false;
    }
    if b0 <= 0xef {
        let c: u32 = (((b0 & 0x0f) as u32) << 12) | (((b1 & 0x3f) as u32) << 6) | ((b2
            & 0x3f) as u32);
        assert(c == codepoint_width_3(b0, b1, b2));
        return c >= 0x800 && (c < 0xd800 || c > 0xdfff);
    }
    if left < 4 {
        return false;
    }
    let b3 = data[at + 3];
    assert(tail[3] == b3);
    if b3 < 0x80 || b3 > 0xbf {
        return false;
    }
    let c: u32 = (((b0 & 0x07) as u32) << 18) | (((b1 & 0x3f) as u32) << 12) | (((b2
        & 0x3f) as u32) << 6) | ((b3 & 0x3f) as u32);
    assert(c == codepoint_width_4(b0, b1, b2, b3));
    c >= 0x10000 && c <= 0x10ffff
}

/// The captured output of one terminal.
pub struct TerminalBuffer {
    pub data: Vec<u8>,
    /// Whether output was ever dropped to stay under the limit.
    pub truncated: bool,
    pub byte_limit: usize,
}

impl TerminalBuffer {
    /// Adds `bytes` at the end, then drops bytes at the front to stay under the limit.
    pub fn append(&mut self, bytes: &[u8])
        ensures
            final(self).data@ == capped(old(self).data@ + bytes@, old(self).byte_limit as nat),
            final(self).truncated == (old(self).truncated || old(self).data@.len() + bytes@.len()
                > old(self).byte_limit),
            final(self).byte_limit == old(self).byte_limit,
            final(self).data@.len() <= final(self).byte_limit,
    {
        self.data.extend_from_slice(bytes);
        let ghost all = old(self).data@ + bytes@;
        assert(self.data@ =~= all);
        proof {
            capped_is_short_suffix(all, self.byte_limit as nat);
        }
        if self.data.len() > self.byte_limit {
            let overflow: usize = self.data.len() - self.byte_limit;
            let mut start: usize = overflow;
            let ghost goal = from_first_scalar(all.skip(overflow as int));
            while start < self.data.len() && !scalar_starts_at(&self.data, start)
                invariant
                    self.data@ == all,
                    self.byte_limit == old(self).byte_limit,
                    self.truncated == old(self).truncated,
                    start <= self.data.len(),
                    goal == from_first_scalar(all.skip(start as int)),
                decreases self.data.len() - start,
            {
                assert(all.skip(start as int).skip(1) =~= all.skip(start + 1));
                start = start + 1;
            }
            assert(goal =~= all.skip(start as int));
            let kept = self.data.split_off(start);
            assert(kept@ =~= all.skip(start as int));
            self.data = kept;
            self.truncated = true;
        }
    }

    /// The captured output as text.
    pub fn output(&self) -> (text: String)
        ensures
            text@ == captured_text(self.data@),
            valid_utf8(self.data@) ==> encode_utf8(text@) == self.data@,
            !valid_utf8(self.data@) ==> text@ == utf8_lossy(self.data@),
    {
        proof {
            output_encodes_data(self.data@);
        }
        lossy_text(&self.data)
    }
}

/// The text that a buffer gives is the whole of what it holds, every line of it: encoding it gives
/// back the bytes, where these encode anything.
pub proof fn output_is_complete(buffer: &TerminalBuffer, text: String)
    requires
        call_ensures(TerminalBuffer::output, (buffer,), text),
    ensures
        valid_utf8(buffer.data@) ==> encode_utf8(text@) == buffer.data@,
        !valid_utf8(buffer.data@) ==> text@ == utf8_lossy(buffer.data@),
{
}

/// Bytes go behind what a buffer holds. All stays if it fits under the cap; otherwise the end of it
/// stays, without a needless loss, and the buffer remembers that some was lost.
pub proof fn appending_keeps_the_end(before: TerminalBuffer, bytes: &[u8], after: TerminalBuffer)
    requires
        exists|b: &mut TerminalBuffer|
            *b == before && *final(b) == after && #[trigger] call_ensures(
                TerminalBuffer::append,
                (b, bytes),
                (),
            ),
    ensures
        after.byte_limit == before.byte_limit,
        after.data@.len() <= after.byte_limit,
        after.data@.is_suffix_of(before.data@ + bytes@),
        before.data@.len() + bytes@.len() <= before.byte_limit ==> after.data@ == before.data@
            + bytes@ && after.truncated == before.truncated,
        before.data@.len() + bytes@.len() > before.byte_limit ==> after.truncated,
        forall|at: int|
            before.data@.len() + bytes@.len() - before.byte_limit <= at < before.data@.len()
                + bytes@.len() - after.data@.len() && before.data@.len() + bytes@.len()
                > before.byte_limit ==> !valid_first_scalar(
                #[trigger] (before.data@ + bytes@).skip(at),
            ),
{
    let all = before.data@ + bytes@;
    let limit = before.byte_limit as nat;
    capped_is_short_suffix(all, limit);
    assert forall|at: int|
        all.len() - limit <= at < all.len() - after.data@.len() && all.len()
            > limit implies !valid_first_scalar(#[trigger] all.skip(at)) by {
        nothing_is_dropped_needlessly(all, limit, at);
    }
}

/// Text that is captured by an empty buffer comes out as it went in, if it fits under the cap; of
/// longer text the end comes out.
pub proof fn captured_text_comes_out(
    before: TerminalBuffer,
    printed: Seq<char>,
    bytes: &[u8],
    after: TerminalBuffer,
    text: String,
)
    requires
        before.data@.len() == 0,
        bytes@ == encode_utf8(printed),
        exists|b: &mut TerminalBuffer|
            *b == before && *final(b) == after && #[trigger] call_ensures(
                TerminalBuffer::append,
                (b, bytes),
                (),
            ),
        call_ensures(TerminalBuffer::output, (&after,), text),
    ensures
        bytes@.len() <= before.byte_limit ==> text@ == printed,
        text@.is_suffix_of(printed),
{
    let limit = before.byte_limit as nat;
    assert(before.data@ + bytes@ =~= bytes@);
    end_of_text_is_shown(printed, limit);
    if bytes@.len() <= before.byte_limit {
        printed_text_is_shown(printed, limit);
    }
}

} // verus!
