//! Loading a file and writing it out again: when the bytes come back as they
//! were.

use crate::text::{decode, encode, encode_char, has_cr};
use vstd::prelude::*;

verus! {

/// Every line end of `bytes` is a carriage return and a newline: each
/// carriage return stands before a newline, and each newline behind a
/// carriage return.
pub open spec fn crlf_ended(bytes: Seq<u8>) -> bool {
    &&& forall|i: int|
        0 <= i < bytes.len() && #[trigger] bytes[i] == 13u8 ==> i + 1 < bytes.len() && bytes[i
            + 1] == 10u8
    &&& forall|i: int|
        0 <= i < bytes.len() && #[trigger] bytes[i] == 10u8 ==> i > 0 && bytes[i - 1] == 13u8
}

/// Every byte of `bytes` is an ASCII character.
pub open spec fn all_ascii(bytes: Seq<u8>) -> bool {
    forall|i: int| 0 <= i < bytes.len() ==> #[trigger] bytes[i] < 128
}

/// What one byte of a file comes back as: nothing for a carriage return, a
/// carriage return and a newline for a newline where `crlf` is set, and else
/// itself.
pub open spec fn piece(x: u8, crlf: bool) -> Seq<u8> {
    if x == 13u8 {
        Seq::empty()
    } else if x == 10u8 && crlf {
        seq![13u8, 10u8]
    } else {
        seq![x]
    }
}

/// What the bytes of a file come back as, byte by byte.
pub open spec fn rewritten(bytes: Seq<u8>, crlf: bool) -> Seq<u8>
    decreases bytes.len(),
{
    if bytes.len() == 0 {
        Seq::empty()
    } else {
        rewritten(bytes.drop_last(), crlf) + piece(bytes.last(), crlf)
    }
}

/// Loading ASCII bytes and writing the text out gives the bytes rewritten
/// one by one.
proof fn lemma_rewritten(bytes: Seq<u8>, crlf: bool)
    requires
        all_ascii(bytes),
    ensures
        encode(decode(bytes), crlf) == rewritten(bytes, crlf),
    decreases bytes.len(),
{
    let keep = |b: u8| b != 13u8;
    let to_char = |b: u8| b as char;
    let each = |c: char| encode_char(c, crlf);
    if bytes.len() == 0 {
        assert(bytes.filter(keep) =~= Seq::<u8>::empty()) by {
            bytes.lemma_filter_len(keep);
        }
        assert(decode(bytes) =~= Seq::<char>::empty());
        assert(decode(bytes).map_values(each) =~= Seq::<Seq<u8>>::empty());
        assert(encode(decode(bytes), crlf) =~= Seq::<u8>::empty());
    } else {
        let front = bytes.drop_last();
        let x = bytes.last();
        assert(bytes =~= front.push(x));
        assert(all_ascii(front)) by {
            assert forall|i: int| 0 <= i < front.len() implies #[trigger] front[i] < 128 by {
                assert(bytes[i] < 128);
            }
        }
        lemma_rewritten(front, crlf);
        Seq::lemma_filter_push(front, x, keep);
        if x == 13u8 {
            assert(decode(bytes) == decode(front));
            assert(rewritten(bytes, crlf) =~= rewritten(front, crlf));
        } else {
            let c = x as char;
            front.filter(keep).lemma_push_map_commute(to_char, x);
            assert(decode(bytes) == decode(front).push(c));
            decode(front).lemma_push_map_commute(each, c);
            decode(front).map_values(each).lemma_flatten_push(each(c));
            assert(encode(decode(bytes), crlf) == encode(decode(front), crlf) + encode_char(
                c,
                crlf,
            ));
            assert(encode_char(c, crlf) == piece(x, crlf)) by {
                if !(c == '\n' && crlf) {
                    assert(bytes[bytes.len() - 1] < 128);
                    assert(vstd::utf8::is_ascii_chars(seq![c]));
                    vstd::utf8::is_ascii_chars_encode_utf8(seq![c]);
                    assert(vstd::utf8::encode_utf8(seq![c]) =~= seq![x]);
                }
            }
        }
    }
}

/// Bytes without a carriage return come back as they are where newlines are
/// written as they are.
proof fn lemma_rewritten_plain(bytes: Seq<u8>)
    requires
        !has_cr(bytes),
    ensures
        rewritten(bytes, false) == bytes,
    decreases bytes.len(),
{
    if bytes.len() > 0 {
        let front = bytes.drop_last();
        assert(!has_cr(front)) by {
            if has_cr(front) {
                let i = choose|i: int| 0 <= i < front.len() && front[i] == 13u8;
                assert(bytes[i] == 13u8);
            }
        }
        assert(bytes.last() != 13u8) by {
            if bytes.last() == 13u8 {
                assert(bytes[bytes.len() - 1] == 13u8);
            }
        }
        lemma_rewritten_plain(front);
        assert(rewritten(bytes, false) =~= bytes);
    } else {
        assert(rewritten(bytes, false) =~= bytes);
    }
}

/// What comes back never ends in a carriage return, and where it ends in a
/// newline, a carriage return stands before it.
proof fn lemma_rewritten_end(bytes: Seq<u8>)
    ensures
        rewritten(bytes, true).len() > 0 ==> rewritten(bytes, true).last() != 13u8,
        (rewritten(bytes, true).len() > 0 && rewritten(bytes, true).last() == 10u8) ==> rewritten(
            bytes,
            true,
        ).len() >= 2 && rewritten(bytes, true)[rewritten(bytes, true).len() - 2] == 13u8,
    decreases bytes.len(),
{
    if bytes.len() > 0 {
        lemma_rewritten_end(bytes.drop_last());
    }
}

/// What comes back with carriage returns before the newlines is what went in
/// exactly if every line end of it was a carriage return and a newline.
proof fn lemma_rewritten_crlf(bytes: Seq<u8>)
    ensures
        rewritten(bytes, true) == bytes <==> crlf_ended(bytes),
    decreases bytes.len(),
{
    if bytes.len() == 0 {
        assert(rewritten(bytes, true) =~= bytes);
    } else {
        let front = bytes.drop_last();
        let x = bytes.last();
        let n = bytes.len() as int;
        assert(bytes =~= front.push(x));
        lemma_rewritten_end(front);
        lemma_rewritten_end(bytes);
        if x == 13u8 {
            assert(!crlf_ended(bytes)) by {
                assert(bytes[n - 1] == 13u8);
            }
            assert(rewritten(bytes, true) =~= rewritten(front, true));
            if rewritten(bytes, true) == bytes {
                assert(rewritten(front, true).last() == 13u8);
            }
        } else if x == 10u8 {
            assert(rewritten(bytes, true) =~= rewritten(front, true) + seq![13u8, 10u8]);
            if front.len() > 0 && front.last() == 13u8 {
                let inner = front.drop_last();
                assert(front =~= inner.push(13u8));
                assert(rewritten(front, true) =~= rewritten(inner, true));
                lemma_rewritten_crlf(inner);
                if rewritten(bytes, true) == bytes {
                    assert(rewritten(inner, true) =~= bytes.subrange(0, n - 2));
                    assert(inner =~= bytes.subrange(0, n - 2));
                }
                if rewritten(inner, true) == inner {
                    assert(rewritten(bytes, true) =~= bytes);
                }
                assert(crlf_ended(bytes) <==> crlf_ended(inner)) by {
                    if crlf_ended(bytes) {
                        assert forall|i: int|
                            0 <= i < inner.len() && #[trigger] inner[i] == 13u8 implies i + 1
                            < inner.len() && inner[i + 1] == 10u8 by {
                            assert(bytes[i] == 13u8);
                            assert(bytes[i + 1] == 10u8);
                        }
                        assert forall|i: int|
                            0 <= i < inner.len() && #[trigger] inner[i] == 10u8 implies i > 0
                            && inner[i - 1] == 13u8 by {
                            assert(bytes[i] == 10u8);
                        }
                    }
                    if crlf_ended(inner) {
                        assert forall|i: int|
                            0 <= i < bytes.len() && #[trigger] bytes[i] == 13u8 implies i + 1
                            < bytes.len() && bytes[i + 1] == 10u8 by {
                            if i < inner.len() {
                                assert(inner[i] == 13u8);
                                assert(bytes[i + 1] == inner[i + 1]);
                            }
                        }
                        assert forall|i: int|
                            0 <= i < bytes.len() && #[trigger] bytes[i] == 10u8 implies i > 0
                            && bytes[i - 1] == 13u8 by {
                            if i < inner.len() {
                                assert(inner[i] == 10u8);
                                assert(bytes[i - 1] == inner[i - 1]);
                            }
                        }
                    }
                }
            } else {
                assert(!crlf_ended(bytes)) by {
                    assert(bytes[n - 1] == 10u8);
                    if n > 1 {
                        assert(bytes[n - 2] == front.last());
                    }
                }
                if rewritten(bytes, true) == bytes {
                    assert(rewritten(bytes, true)[rewritten(bytes, true).len() - 2] == 13u8);
                    assert(bytes[n - 2] == front.last());
                }
            }
        } else {
            assert(rewritten(bytes, true) =~= rewritten(front, true).push(x));
            lemma_rewritten_crlf(front);
            if rewritten(bytes, true) == bytes {
                assert(rewritten(front, true) =~= bytes.drop_last());
            }
            assert(crlf_ended(bytes) <==> crlf_ended(front)) by {
                if crlf_ended(bytes) {
                    assert forall|i: int|
                        0 <= i < front.len() && #[trigger] front[i] == 13u8 implies i + 1
                        < front.len() && front[i + 1] == 10u8 by {
                        assert(bytes[i] == 13u8);
                        assert(bytes[i + 1] == 10u8);
                    }
                    assert forall|i: int|
                        0 <= i < front.len() && #[trigger] front[i] == 10u8 implies i > 0
                        && front[i - 1] == 13u8 by {
                        assert(bytes[i] == 10u8);
                    }
                }
                if crlf_ended(front) {
                    assert forall|i: int|
                        0 <= i < bytes.len() && #[trigger] bytes[i] == 13u8 implies i + 1
                        < bytes.len() && bytes[i + 1] == 10u8 by {
                        assert(front[i] == 13u8);
                        assert(bytes[i + 1] == front[i + 1]);
                    }
                    assert forall|i: int|
                        0 <= i < bytes.len() && #[trigger] bytes[i] == 10u8 implies i > 0
                        && bytes[i - 1] == 13u8 by {
                        assert(front[i] == 10u8);
                        assert(bytes[i - 1] == front[i - 1]);
                    }
                }
            }
        }
    }
}

/// Loading ASCII bytes and writing the text out again gives the same bytes
/// exactly if the bytes hold no carriage return at all, or every line end of
/// them is a carriage return and a newline.
pub proof fn lemma_load_then_save(bytes: Seq<u8>)
    requires
        all_ascii(bytes),
    ensures
        encode(decode(bytes), has_cr(bytes)) == bytes <==> !has_cr(bytes) || crlf_ended(bytes),
{
    lemma_rewritten(bytes, has_cr(bytes));
    if has_cr(bytes) {
        lemma_rewritten_crlf(bytes);
    } else {
        lemma_rewritten_plain(bytes);
    }
}

/// What one byte of a file is written out as once it is loaded: nothing
/// for a carriage return, and else what its character is written as.
pub open spec fn written(x: u8, crlf: bool) -> Seq<u8> {
    if x == 13u8 {
        Seq::empty()
    } else {
        encode_char(x as char, crlf)
    }
}

/// What the bytes of a file are written out as once they are loaded, byte by
/// byte.
pub open spec fn saved(bytes: Seq<u8>, crlf: bool) -> Seq<u8>
    decreases bytes.len(),
{
    if bytes.len() == 0 {
        Seq::empty()
    } else {
        saved(bytes.drop_last(), crlf) + written(bytes.last(), crlf)
    }
}

/// The number of carriage returns in `bytes`.
pub open spec fn count_cr(bytes: Seq<u8>) -> int
    decreases bytes.len(),
{
    if bytes.len() == 0 {
        0
    } else {
        count_cr(bytes.drop_last()) + if bytes.last() == 13u8 {
            1int
        } else {
            0int
        }
    }
}

/// The number of newlines in `bytes`.
pub open spec fn count_lf(bytes: Seq<u8>) -> int
    decreases bytes.len(),
{
    if bytes.len() == 0 {
        0
    } else {
        count_lf(bytes.drop_last()) + if bytes.last() == 10u8 {
            1int
        } else {
            0int
        }
    }
}

/// The number of bytes in `bytes` that are no ASCII characters.
pub open spec fn count_high(bytes: Seq<u8>) -> int
    decreases bytes.len(),
{
    if bytes.len() == 0 {
        0
    } else {
        count_high(bytes.drop_last()) + if bytes.last() >= 128 {
            1int
        } else {
            0int
        }
    }
}

/// Loading bytes and writing the text out gives what the bytes are written
/// out as one by one.
proof fn lemma_saved(bytes: Seq<u8>, crlf: bool)
    ensures
        encode(decode(bytes), crlf) == saved(bytes, crlf),
    decreases bytes.len(),
{
    let keep = |b: u8| b != 13u8;
    let to_char = |b: u8| b as char;
    let each = |c: char| encode_char(c, crlf);
    if bytes.len() == 0 {
        assert(bytes.filter(keep) =~= Seq::<u8>::empty()) by {
            bytes.lemma_filter_len(keep);
        }
        assert(decode(bytes) =~= Seq::<char>::empty());
        assert(decode(bytes).map_values(each) =~= Seq::<Seq<u8>>::empty());
        assert(encode(decode(bytes), crlf) =~= Seq::<u8>::empty());
    } else {
        let front = bytes.drop_last();
        let x = bytes.last();
        assert(bytes =~= front.push(x));
        lemma_saved(front, crlf);
        Seq::lemma_filter_push(front, x, keep);
        if x == 13u8 {
            assert(decode(bytes) == decode(front));
            assert(saved(bytes, crlf) =~= saved(front, crlf));
        } else {
            let c = x as char;
            front.filter(keep).lemma_push_map_commute(to_char, x);
            assert(decode(bytes) == decode(front).push(c));
            decode(front).lemma_push_map_commute(each, c);
            decode(front).map_values(each).lemma_flatten_push(each(c));
        }
    }
}

/// The counts of a sequence of bytes with one or two bytes behind it.
proof fn lemma_count_more(s: Seq<u8>, a: u8, b: u8)
    ensures
        count_cr(s + seq![a]) == count_cr(s) + count_cr(seq![a]),
        count_cr(s + seq![a, b]) == count_cr(s) + count_cr(seq![a, b]),
        count_cr(seq![a]) == (if a == 13u8 {
            1int
        } else {
            0int
        }),
        count_cr(seq![a, b]) == count_cr(seq![a]) + count_cr(seq![b]),
{
    assert((s + seq![a]).drop_last() =~= s);
    assert((s + seq![a, b]).drop_last() =~= s + seq![a]);
    assert(seq![a].drop_last() =~= Seq::<u8>::empty());
    assert(seq![b].drop_last() =~= Seq::<u8>::empty());
    assert(seq![a, b].drop_last() =~= seq![a]);
    assert(count_cr(Seq::<u8>::empty()) == 0);
}

/// A byte that is no ASCII character is written out as two bytes of which
/// none is a carriage return.
proof fn lemma_written_high(x: u8, crlf: bool)
    requires
        x >= 128,
    ensures
        written(x, crlf).len() == 2,
        written(x, crlf)[0] != 13u8,
        written(x, crlf)[1] != 13u8,
{
    let c = x as char;
    let v = c as u32;
    assert(v == x as u32);
    assert(seq![c].drop_first() =~= Seq::<char>::empty());
    assert(seq![c][0] == c);
    assert(vstd::utf8::encode_utf8(seq![c]) =~= vstd::utf8::encode_scalar(v)) by {
        reveal_with_fuel(vstd::utf8::encode_utf8, 2);
    }
    let high = ((v >> 6) & 0x1F) as u8;
    let low = (v & 0x3F) as u8;
    assert((0xC0u8 | high) != 13u8) by (bit_vector);
    assert((0x80u8 | low) != 13u8) by (bit_vector);
}

/// An ASCII character that is no line end is written out as itself.
proof fn lemma_written_low(x: u8, crlf: bool)
    requires
        x < 128,
        x != 13u8,
        !(x == 10u8 && crlf),
    ensures
        written(x, crlf) == seq![x],
{
    let c = x as char;
    assert(vstd::utf8::is_ascii_chars(seq![c]));
    vstd::utf8::is_ascii_chars_encode_utf8(seq![c]);
    assert(vstd::utf8::encode_utf8(seq![c]) =~= seq![x]);
}

/// What is written out is as long as what was loaded, less one byte for
/// each carriage return, plus one for each byte that is no ASCII character
/// and, where newlines get a carriage return, for each newline. Its
/// carriage returns are those of the newlines.
proof fn lemma_saved_counts(bytes: Seq<u8>, crlf: bool)
    ensures
        saved(bytes, crlf).len() + count_cr(bytes) == bytes.len() + count_high(bytes) + (if crlf {
            count_lf(bytes)
        } else {
            0
        }),
        count_cr(saved(bytes, crlf)) == (if crlf {
            count_lf(bytes)
        } else {
            0
        }),
    decreases bytes.len(),
{
    if bytes.len() > 0 {
        let front = bytes.drop_last();
        let x = bytes.last();
        let before = saved(front, crlf);
        lemma_saved_counts(front, crlf);
        if x == 13u8 {
            assert(saved(bytes, crlf) =~= before);
        } else if x == 10u8 && crlf {
            assert(written(x, crlf) == seq![13u8, 10u8]);
            lemma_count_more(before, 13u8, 10u8);
            lemma_count_more(before, 10u8, 10u8);
        } else if x < 128 {
            lemma_written_low(x, crlf);
            lemma_count_more(before, x, x);
        } else {
            lemma_written_high(x, crlf);
            let w = written(x, crlf);
            assert(w =~= seq![w[0], w[1]]);
            lemma_count_more(before, w[0], w[1]);
            lemma_count_more(before, w[1], w[1]);
        }
    }
}

/// Bytes without a byte that is no ASCII character are ASCII, and bytes
/// without a carriage return count none.
proof fn lemma_counts_mean(bytes: Seq<u8>)
    ensures
        count_high(bytes) >= 0,
        count_high(bytes) == 0 ==> all_ascii(bytes),
        !has_cr(bytes) ==> count_cr(bytes) == 0,
    decreases bytes.len(),
{
    if bytes.len() > 0 {
        let front = bytes.drop_last();
        lemma_counts_mean(front);
        if count_high(bytes) == 0 {
            assert forall|i: int| 0 <= i < bytes.len() implies #[trigger] bytes[i] < 128 by {
                if i < front.len() {
                    assert(front[i] == bytes[i]);
                }
            }
        }
        if !has_cr(bytes) {
            assert(!has_cr(front)) by {
                if has_cr(front) {
                    let i = choose|i: int| 0 <= i < front.len() && front[i] == 13u8;
                    assert(bytes[i] == 13u8);
                }
            }
            assert(bytes[bytes.len() - 1] != 13u8);
        }
    }
}

/// Loading bytes and writing the text out again gives the same bytes exactly
/// if the bytes are ASCII and hold no carriage return at all, or are ASCII
/// and every line end of them is a carriage return and a newline.
pub proof fn lemma_load_then_save_any(bytes: Seq<u8>)
    ensures
        encode(decode(bytes), has_cr(bytes)) == bytes <==> all_ascii(bytes) && (!has_cr(bytes)
            || crlf_ended(bytes)),
{
    if all_ascii(bytes) {
        lemma_load_then_save(bytes);
    } else if encode(decode(bytes), has_cr(bytes)) == bytes {
        lemma_saved(bytes, has_cr(bytes));
        lemma_saved_counts(bytes, has_cr(bytes));
        lemma_counts_mean(bytes);
    }
}

} // verus!
