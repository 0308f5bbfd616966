//! Frame layer: escaping, check code and the `0x7E` frame flags.
use vstd::prelude::*;

verus! {

/// The byte that opens and closes every frame.
pub const FLAG: u8 = 0x7E;

/// The byte that starts a two-byte escape sequence.
pub const ESCAPE: u8 = 0x7D;

/// How one payload byte is written inside a frame:
/// `0x7E` becomes `7D 02`, `0x7D` becomes `7D 01`, any other byte stays.
pub open spec fn escape_byte(b: u8) -> Seq<u8> {
    if b == FLAG {
        seq![ESCAPE, 0x02u8]
    } else if b == ESCAPE {
        seq![ESCAPE, 0x01u8]
    } else {
        seq![b]
    }
}

/// The payload with every byte escaped.
pub open spec fn escaped(s: Seq<u8>) -> Seq<u8>
    decreases s.len(),
{
    if s.len() == 0 {
        Seq::empty()
    } else {
        escaped(s.drop_last()) + escape_byte(s.last())
    }
}

/// The check code: the XOR of all payload bytes (0 for an empty payload).
pub open spec fn checksum(s: Seq<u8>) -> u8
    decreases s.len(),
{
    if s.len() == 0 {
        0
    } else {
        checksum(s.drop_last()) ^ s.last()
    }
}

/// The frame that `wrap` writes for a payload: flag, escaped payload,
/// check code (written as is), flag.
pub open spec fn framed(s: Seq<u8>) -> Seq<u8> {
    seq![FLAG] + escaped(s) + seq![checksum(s), FLAG]
}

/// Frames `src` and appends the frame to `dst`; returns the number of bytes appended.
pub fn wrap(src: &Vec<u8>, dst: &mut Vec<u8>) -> (result: usize)
    ensures
        final(dst)@ == old(dst)@ + framed(src@),
        result == framed(src@).len(),
{
    let start: usize = dst.len();
    let mut crc: u8 = 0;
    dst.push(FLAG);
    let n: usize = src.len();
    let mut i: usize = 0;
    while i < n
        invariant
            n == src.len(),
            0 <= i <= n,
            start == old(dst)@.len(),
            dst@ == old(dst)@ + seq![FLAG] + escaped(src@.take(i as int)),
            crc == checksum(src@.take(i as int)),
        decreases n - i,
    {
        let tmp: u8 = src[i];
        let ghost prefix = src@.take(i as int);
        assert(src@.take(i + 1).drop_last() == prefix);
        if i == 0 {
            assert(0u8 ^ tmp == tmp) by (bit_vector);
            crc = tmp;
        } else {
            crc = crc ^ tmp;
        }
        if tmp == FLAG {
            dst.push(ESCAPE);
            dst.push(0x02);
        } else if tmp == ESCAPE {
            dst.push(ESCAPE);
            dst.push(0x01);
        } else {
            dst.push(tmp);
        }
        i += 1;
        assert(dst@ == old(dst)@ + seq![FLAG] + escaped(src@.take(i as int)));
    }
    assert(src@.take(n as int) == src@);
    dst.push(crc);
    dst.push(FLAG);
    dst.len() - start
}

/// Whether `s` has the outer shape of a frame: at least four bytes,
/// opened and closed by the flag byte.
pub open spec fn is_frame(s: Seq<u8>) -> bool {
    s.len() >= 4 && s[0] == FLAG && s[s.len() - 1] == FLAG
}

/// The bytes between the two flags of a frame.
pub open spec fn frame_body(s: Seq<u8>) -> Seq<u8> {
    s.subrange(1, s.len() - 1)
}

/// Undoes the escaping of a frame body whose last byte is the check code.
///
/// Bytes are decoded from the front while more than one byte is left, so the
/// final byte is read only when an escape sequence before it takes it as its
/// second byte. Yields the bytes decoded and whether decoding met no invalid
/// escape; on an invalid escape (`7D` followed by anything but `01` or `02`)
/// the bytes are those decoded before it.
pub open spec fn unescaped(s: Seq<u8>) -> (Seq<u8>, bool)
    decreases s.len(),
{
    if s.len() <= 1 {
        (Seq::empty(), true)
    } else if s[0] == ESCAPE {
        if s[1] == 0x02 {
            let rest = unescaped(s.skip(2));
            (seq![FLAG] + rest.0, rest.1)
        } else if s[1] == 0x01 {
            let rest = unescaped(s.skip(2));
            (seq![ESCAPE] + rest.0, rest.1)
        } else {
            (Seq::empty(), false)
        }
    } else {
        let rest = unescaped(s.skip(1));
        (seq![s[0]] + rest.0, rest.1)
    }
}

/// The bytes that `unwrap` appends for the input `s`.
pub open spec fn unwrap_output(s: Seq<u8>) -> Seq<u8> {
    if is_frame(s) {
        unescaped(frame_body(s)).0
    } else {
        Seq::empty()
    }
}

/// The payload of a frame, or `None` when `unwrap` refuses `s`.
pub open spec fn unwrapped(s: Seq<u8>) -> Option<Seq<u8>> {
    if is_frame(s) && unescaped(frame_body(s)).1 {
        Some(unescaped(frame_body(s)).0)
    } else {
        None
    }
}

/// Decodes the frame `src` and appends its payload to `dst`; returns the
/// payload's length, or 0 when the frame is refused.
///
/// The check code is not compared with the payload. When an invalid escape
/// sequence is met, the bytes decoded before it stay appended to `dst`.
pub fn unwrap(src: &Vec<u8>, dst: &mut Vec<u8>) -> (result: usize)
    ensures
        final(dst)@ == old(dst)@ + unwrap_output(src@),
        result == match unwrapped(src@) {
            Some(p) => p.len(),
            None => 0,
        },
        result == 0 <==> unwrapped(src@) is None,
{
    let n: usize = src.len();
    if n < 4 {
        return 0;
    }
    if src[0] != FLAG || src[n - 1] != FLAG {
        return 0;
    }
    let ghost body = frame_body(src@);
    let mut ret: usize = 0;
    let mut i: usize = 1;
    let mut tmp: u8;
    while i < n - 2
        invariant
            n == src.len(),
            is_frame(src@),
            1 <= i <= n - 1,
            body == src@.subrange(1, n - 1),
            ret == dst@.len() - old(dst)@.len(),
            ret <= i,
            ({
                let rest = unescaped(src@.subrange(i as int, n - 1));
                &&& dst@.subrange(0, old(dst)@.len() as int) == old(dst)@
                &&& unescaped(body).0 == dst@.skip(old(dst)@.len() as int) + rest.0
                &&& unescaped(body).1 == rest.1
            }),
        decreases n - i,
    {
        let ghost rest = src@.subrange(i as int, n - 1);
        tmp = src[i];
        if tmp == ESCAPE {
            if src[i + 1] == 0x02 {
                tmp = FLAG;
                i += 1;
            } else if src[i + 1] == 0x01 {
                tmp = ESCAPE;
                i += 1;
            } else {
                assert(unescaped(rest) == (Seq::<u8>::empty(), false));
                assert(dst@ == old(dst)@ + unescaped(body).0);
                return 0;
            }
            assert(rest.skip(2) == src@.subrange(i + 1, n - 1));
        } else {
            assert(rest.skip(1) == src@.subrange(i + 1, n - 1));
        }
        let ghost before = dst@;
        dst.push(tmp);
        assert(dst@.skip(old(dst)@.len() as int) == before.skip(old(dst)@.len() as int) + seq![tmp]);
        i += 1;
        ret += 1;
    }
    assert(unescaped(src@.subrange(i as int, n - 1)) == (Seq::<u8>::empty(), true));
    assert(dst@ == old(dst)@ + dst@.skip(old(dst)@.len() as int));
    ret
}

/// Escaping distributes over concatenation.
pub proof fn lemma_escaped_concat(a: Seq<u8>, b: Seq<u8>)
    ensures
        escaped(a + b) == escaped(a) + escaped(b),
    decreases b.len(),
{
    if b.len() == 0 {
        assert(a + b == a);
    } else {
        lemma_escaped_concat(a, b.drop_last());
        assert((a + b).drop_last() == a + b.drop_last());
    }
}

/// Decoding an escaped payload followed by at least one more byte gives back
/// the payload, then whatever decoding the rest gives.
proof fn lemma_unescape_escaped_then(x: Seq<u8>, r: Seq<u8>)
    requires
        r.len() >= 1,
    ensures
        unescaped(escaped(x) + r) == (x + unescaped(r).0, unescaped(r).1),
    decreases x.len(),
{
    if x.len() == 0 {
        assert(escaped(x) + r == r);
        assert(x + unescaped(r).0 == unescaped(r).0);
    } else {
        let head: u8 = x[0];
        let tail = x.skip(1);
        assert(x == seq![head] + tail);
        lemma_escaped_concat(seq![head], tail);
        assert(seq![head].drop_last() == Seq::<u8>::empty());
        assert(escaped(Seq::<u8>::empty()) == Seq::<u8>::empty());
        assert(Seq::<u8>::empty() + escape_byte(head) == escape_byte(head));
        assert(escaped(seq![head]) == escape_byte(head));
        lemma_unescape_escaped_then(tail, r);
        let s = escaped(x) + r;
        let k: int = escape_byte(head).len() as int;
        assert(s == escape_byte(head) + (escaped(tail) + r));
        assert(s.skip(k) == escaped(tail) + r);
        assert(x + unescaped(r).0 == seq![head] + (tail + unescaped(r).0));
    }
}

/// Decoding the escaped payload followed by one more byte (the check code)
/// gives back the payload, with no invalid escape.
proof fn lemma_unescape_escaped(x: Seq<u8>, c: u8)
    ensures
        unescaped(escaped(x) + seq![c]) == (x, true),
{
    lemma_unescape_escaped_then(x, seq![c]);
    assert(x + Seq::<u8>::empty() == x);
}

/// The check code is not compared: a frame holding an escaped non-empty
/// payload followed by any byte at all is accepted and yields that payload.
pub proof fn lemma_unwrap_any_check_code(x: Seq<u8>, c: u8)
    requires
        x.len() > 0,
    ensures
        unwrapped(seq![FLAG] + escaped(x) + seq![c, FLAG]) == Some(x),
{
    let f = seq![FLAG] + escaped(x) + seq![c, FLAG];
    lemma_escaped_len(x);
    assert(frame_body(f) == escaped(x) + seq![c]);
    lemma_unescape_escaped(x, c);
}

/// An escape byte followed by anything but `01` or `02` makes `unwrap` refuse
/// the frame, while the bytes decoded before it are still appended.
pub proof fn lemma_unwrap_invalid_escape(x: Seq<u8>, b: u8, t: Seq<u8>)
    requires
        b != 0x01u8,
        b != 0x02u8,
    ensures
        unwrapped(seq![FLAG] + escaped(x) + seq![ESCAPE, b] + t + seq![FLAG]) is None,
        unwrap_output(seq![FLAG] + escaped(x) + seq![ESCAPE, b] + t + seq![FLAG]) == x,
{
    let r = seq![ESCAPE, b] + t;
    let f = seq![FLAG] + escaped(x) + seq![ESCAPE, b] + t + seq![FLAG];
    assert(f == seq![FLAG] + (escaped(x) + r) + seq![FLAG]);
    assert(frame_body(f) == escaped(x) + r);
    assert(unescaped(r) == (Seq::<u8>::empty(), false));
    lemma_unescape_escaped_then(x, r);
    assert(x + Seq::<u8>::empty() == x);
}

/// The check code of a single byte is that byte.
pub proof fn lemma_checksum_single(b: u8)
    ensures
        checksum(seq![b]) == b,
{
    assert(seq![b].drop_last() == Seq::<u8>::empty());
    assert(seq![b].last() == b);
    assert(checksum(Seq::<u8>::empty()) == 0);
    assert(0u8 ^ b == b) by (bit_vector);
}

/// The check code of a concatenation is the XOR of the check codes of the
/// parts; with the single-byte case this makes it the XOR of every byte.
pub proof fn lemma_checksum_concat(x: Seq<u8>, y: Seq<u8>)
    ensures
        checksum(x + y) == checksum(x) ^ checksum(y),
    decreases y.len(),
{
    let cx = checksum(x);
    if y.len() == 0 {
        assert(x + y == x);
        assert(cx ^ 0u8 == cx) by (bit_vector);
    } else {
        lemma_checksum_concat(x, y.drop_last());
        assert((x + y).drop_last() == x + y.drop_last());
        let cy = checksum(y.drop_last());
        let l = y.last();
        assert((x + y).last() == l);
        assert((cx ^ cy) ^ l == cx ^ (cy ^ l)) by (bit_vector);
    }
}

/// Layout of a frame: it opens with the flag, ends with the check code of the
/// payload and the flag, and holds nothing else but the escaped payload.
pub proof fn lemma_framed_layout(x: Seq<u8>)
    ensures
        framed(x).len() >= 3,
        framed(x)[0] == FLAG,
        framed(x)[framed(x).len() - 1] == FLAG,
        framed(x)[framed(x).len() - 2] == checksum(x),
        framed(x).subrange(1, framed(x).len() - 2) == escaped(x),
{
    let f = framed(x);
    assert(f.subrange(1, f.len() - 2) == escaped(x));
}

/// Escaped data: every escape byte starts a pair whose second byte is `01`
/// or `02`, and no flag byte occurs.
pub proof fn lemma_escaped_pairs(x: Seq<u8>)
    ensures
        forall|i: int|
            0 <= i < escaped(x).len() && #[trigger] escaped(x)[i] == ESCAPE ==> i + 1 < escaped(x).len()
                && (escaped(x)[i + 1] == 0x01u8 || escaped(x)[i + 1] == 0x02u8),
        forall|i: int| 0 <= i < escaped(x).len() ==> escaped(x)[i] != FLAG,
    decreases x.len(),
{
    lemma_escaped_no_flag(x);
    if x.len() > 0 {
        lemma_escaped_pairs(x.drop_last());
        let e = escaped(x.drop_last());
        let eb = escape_byte(x.last());
        assert(escaped(x) == e + eb);
        assert forall|i: int|
            0 <= i < escaped(x).len() && #[trigger] escaped(x)[i] == ESCAPE implies i + 1 < escaped(x).len()
                && (escaped(x)[i + 1] == 0x01u8 || escaped(x)[i + 1] == 0x02u8) by {
            if i < e.len() {
                assert(escaped(x)[i] == e[i]);
                assert(escaped(x)[i + 1] == e[i + 1]);
            } else {
                assert(escaped(x)[i] == eb[i - e.len()]);
            }
        }
    }
}

/// Bytes other than the flag and the escape byte pass through escaping unchanged.
pub proof fn lemma_escaped_plain(x: Seq<u8>)
    requires
        forall|i: int| 0 <= i < x.len() ==> x[i] != FLAG && x[i] != ESCAPE,
    ensures
        escaped(x) == x,
    decreases x.len(),
{
    if x.len() > 0 {
        lemma_escaped_plain(x.drop_last());
        assert(x.drop_last() + seq![x.last()] == x);
    }
}

/// The escape sequence of a byte decodes back to it, and it is two bytes
/// long exactly for the flag and the escape byte.
pub proof fn lemma_escape_byte_decodes(b: u8, c: u8)
    ensures
        unescaped(escaped(seq![b]) + seq![c]) == (seq![b], true),
        escaped(seq![b]).len() == if b == FLAG || b == ESCAPE { 2int } else { 1int },
        b == FLAG || b == ESCAPE ==> escaped(seq![b]) == seq![ESCAPE, (b - 0x7Cu8) as u8],
{
    lemma_unescape_escaped(seq![b], c);
    lemma_escaped_len(seq![b]);
    assert(seq![b].drop_last() == Seq::<u8>::empty());
    assert(seq![b].last() == b);
    assert(special_count(Seq::<u8>::empty()) == 0);
    assert(escaped(Seq::<u8>::empty()) == Seq::<u8>::empty());
    assert(escaped(seq![b]) == Seq::<u8>::empty() + escape_byte(b));
}

/// `unwrap` refuses, and appends nothing for, any input shorter than four
/// bytes or not opened and closed by the flag byte.
pub proof fn lemma_unwrap_refuses_non_frames(s: Seq<u8>)
    requires
        s.len() < 4 || s[0] != FLAG || s[s.len() - 1] != FLAG,
    ensures
        unwrapped(s) is None,
        unwrap_output(s) == Seq::<u8>::empty(),
{
}

/// Bytes other than the escape byte are copied as they are, the flag byte
/// included: a frame whose body holds such bytes followed by any check code
/// yields those bytes.
pub proof fn lemma_unwrap_copies_plain_bytes(x: Seq<u8>, c: u8)
    requires
        x.len() > 0,
        forall|i: int| 0 <= i < x.len() ==> x[i] != ESCAPE,
    ensures
        unwrapped(seq![FLAG] + x + seq![c, FLAG]) == Some(x),
{
    let f = seq![FLAG] + x + seq![c, FLAG];
    assert(frame_body(f) == x + seq![c]);
    lemma_unescape_plain(x, c);
}

proof fn lemma_unescape_plain(x: Seq<u8>, c: u8)
    requires
        forall|i: int| 0 <= i < x.len() ==> x[i] != ESCAPE,
    ensures
        unescaped(x + seq![c]) == (x, true),
    decreases x.len(),
{
    let s = x + seq![c];
    if x.len() == 0 {
        assert(s == seq![c]);
    } else {
        assert(s[0] == x[0]);
        assert(s.skip(1) == x.skip(1) + seq![c]);
        lemma_unescape_plain(x.skip(1), c);
        assert(x == seq![x[0]] + x.skip(1));
    }
}

/// An escape sequence just before the closing flag takes the check-code
/// position as its second byte: a frame with the escaped payload and no
/// check code yields the whole payload when it ends in a flag or escape
/// byte, and all but its last byte otherwise.
pub proof fn lemma_unwrap_without_check_code(x: Seq<u8>)
    requires
        x.len() > 1,
    ensures
        unwrapped(seq![FLAG] + escaped(x) + seq![FLAG]) == Some(
            if x.last() == FLAG || x.last() == ESCAPE {
                x
            } else {
                x.drop_last()
            },
        ),
{
    let f = seq![FLAG] + escaped(x) + seq![FLAG];
    let p = x.drop_last();
    let l = x.last();
    lemma_escaped_len(x);
    lemma_escaped_len(p);
    assert(frame_body(f) == escaped(x));
    assert(escaped(x) == escaped(p) + escape_byte(l));
    lemma_unescape_escaped_then(p, escape_byte(l));
    let r = escape_byte(l);
    if l == FLAG || l == ESCAPE {
        assert(r.skip(2) == Seq::<u8>::empty());
        assert(unescaped(r.skip(2)) == (Seq::<u8>::empty(), true));
        assert(seq![l] + Seq::<u8>::empty() == seq![l]);
        assert(unescaped(r) == (seq![l], true));
        assert(p + seq![l] == x);
    } else {
        assert(unescaped(r) == (Seq::<u8>::empty(), true));
        assert(p + Seq::<u8>::empty() == p);
    }
}

/// Round trip: unwrapping the frame of any payload appends exactly that
/// payload, and a non-empty payload is accepted and given back whole.
pub proof fn lemma_unwrap_wrap(x: Seq<u8>)
    ensures
        unwrap_output(framed(x)) == x,
        x.len() > 0 ==> unwrapped(framed(x)) == Some(x),
{
    let f = framed(x);
    lemma_escaped_len(x);
    assert(frame_body(f) == escaped(x) + seq![checksum(x)]);
    lemma_unescape_escaped(x, checksum(x));
    if !is_frame(f) {
        assert(escaped(x).len() == 0);
        assert(x.len() == 0);
    }
}

/// The number of payload bytes that need an escape sequence.
pub open spec fn special_count(s: Seq<u8>) -> nat
    decreases s.len(),
{
    if s.len() == 0 {
        0
    } else {
        special_count(s.drop_last()) + if s.last() == FLAG || s.last() == ESCAPE {
            1nat
        } else {
            0nat
        }
    }
}

/// Escaping adds one byte per flag or escape byte of the payload, so a frame
/// is three bytes longer than that.
pub proof fn lemma_escaped_len(x: Seq<u8>)
    ensures
        escaped(x).len() == x.len() + special_count(x),
        framed(x).len() == x.len() + special_count(x) + 3,
    decreases x.len(),
{
    if x.len() > 0 {
        lemma_escaped_len(x.drop_last());
    }
}

/// Transparency: the flag byte never occurs inside an escaped payload.
pub proof fn lemma_escaped_no_flag(x: Seq<u8>)
    ensures
        forall|i: int| 0 <= i < escaped(x).len() ==> escaped(x)[i] != FLAG,
    decreases x.len(),
{
    if x.len() > 0 {
        lemma_escaped_no_flag(x.drop_last());
        let e = escaped(x.drop_last());
        assert forall|i: int| 0 <= i < escaped(x).len() implies escaped(x)[i] != FLAG by {
            if i >= e.len() {
                assert(escaped(x)[i] == escape_byte(x.last())[i - e.len()]);
            }
        }
    }
}

} // verus!
