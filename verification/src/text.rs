//! Text lists on the wire: UTF-8 tokens separated by exactly one space, with
//! no delimiter before the first or after the last token.

use std::string::FromUtf8Error;
use vstd::prelude::*;
use vstd::utf8::*;

verus! {

/// The byte that stands between two tokens of a list.
pub const SEPARATOR: u8 = 0x20;

/// Index of the first separator in `bytes`, or `bytes.len()` where there is none.
pub open spec fn first_separator(bytes: Seq<u8>) -> int
    decreases bytes.len(),
{
    if bytes.len() == 0 || bytes[0] == SEPARATOR {
        0
    } else {
        1 + first_separator(bytes.drop_first())
    }
}

/// The tokens of a list. A buffer with `n` separators holds `n + 1` tokens,
/// some of which may be empty; the empty buffer holds one empty token.
pub open spec fn tokens(bytes: Seq<u8>) -> Seq<Seq<u8>>
    decreases bytes.len(),
{
    let k = first_separator(bytes);
    if 0 <= k < bytes.len() {
        seq![bytes.take(k)] + tokens(bytes.skip(k + 1))
    } else {
        seq![bytes]
    }
}

/// The list that holds the given tokens: each but the first follows a separator.
pub open spec fn join(parts: Seq<Seq<u8>>) -> Seq<u8>
    decreases parts.len(),
{
    if parts.len() == 0 {
        Seq::empty()
    } else if parts.len() == 1 {
        parts[0]
    } else {
        parts[0] + seq![SEPARATOR] + join(parts.drop_first())
    }
}

/// True when no byte of `token` is the separator.
pub open spec fn separator_free(token: Seq<u8>) -> bool {
    forall|i: int| 0 <= i < token.len() ==> token[i] != SEPARATOR
}

/// The UTF-8 encodings of the given strings, one token each.
pub open spec fn encoded(names: Seq<Seq<char>>) -> Seq<Seq<u8>> {
    Seq::new(names.len(), |i: int| encode_utf8(names[i]))
}

/// The strings that the given tokens encode in UTF-8.
pub open spec fn decoded(parts: Seq<Seq<u8>>) -> Seq<Seq<char>> {
    Seq::new(parts.len(), |i: int| decode_utf8(parts[i]))
}

/// `first_separator` is the one index that has a separator, or the end, at it
/// and no separator before it.
pub proof fn lemma_first_separator(bytes: Seq<u8>, k: int)
    requires
        0 <= k <= bytes.len(),
        forall|j: int| 0 <= j < k ==> bytes[j] != SEPARATOR,
        k < bytes.len() ==> bytes[k] == SEPARATOR,
    ensures
        first_separator(bytes) == k,
    decreases k,
{
    if k > 0 {
        let rest = bytes.drop_first();
        assert forall|j: int| 0 <= j < k - 1 implies rest[j] != SEPARATOR by {
            assert(rest[j] == bytes[j + 1]);
        }
        lemma_first_separator(rest, k - 1);
    }
}

/// Where `first_separator` points: within the buffer or at its end, past
/// separator-free bytes, and at a separator unless at the end.
pub proof fn lemma_first_separator_bounds(bytes: Seq<u8>)
    ensures
        0 <= first_separator(bytes) <= bytes.len(),
        separator_free(bytes.take(first_separator(bytes))),
        first_separator(bytes) < bytes.len() ==> bytes[first_separator(bytes)] == SEPARATOR,
    decreases bytes.len(),
{
    if !(bytes.len() == 0 || bytes[0] == SEPARATOR) {
        let rest = bytes.drop_first();
        lemma_first_separator_bounds(rest);
        let k = first_separator(bytes);
        assert forall|i: int| 0 <= i < bytes.take(k).len() implies bytes.take(k)[i]
            != SEPARATOR by {
            if i > 0 {
                assert(bytes.take(k)[i] == rest.take(k - 1)[i - 1]);
            }
        }
    }
}

/// A token list is never empty, and `tokens` is the list that `join` undoes:
/// joining the tokens of a buffer gives the buffer back.
pub proof fn lemma_join_tokens(bytes: Seq<u8>)
    ensures
        tokens(bytes).len() >= 1,
        forall|i: int| 0 <= i < tokens(bytes).len() ==> separator_free(#[trigger] tokens(bytes)[i]),
        join(tokens(bytes)) == bytes,
    decreases bytes.len(),
{
    lemma_first_separator_bounds(bytes);
    let k = first_separator(bytes);
    if k < bytes.len() {
        let rest = bytes.skip(k + 1);
        lemma_join_tokens(rest);
        let all = tokens(bytes);
        assert(all.drop_first() =~= tokens(rest));
        assert(all[0] == bytes.take(k));
        assert forall|i: int| 0 <= i < all.len() implies separator_free(#[trigger] all[i]) by {
            if i > 0 {
                assert(all[i] == tokens(rest)[i - 1]);
            }
        }
        assert(bytes =~= bytes.take(k) + seq![SEPARATOR] + rest);
    } else {
        assert(bytes.take(k) =~= bytes);
    }
}

/// Splitting what `join` built gives the parts back, provided there is at
/// least one part and no part holds a separator.
pub proof fn lemma_tokens_join(parts: Seq<Seq<u8>>)
    requires
        parts.len() >= 1,
        forall|i: int| 0 <= i < parts.len() ==> separator_free(#[trigger] parts[i]),
    ensures
        tokens(join(parts)) == parts,
    decreases parts.len(),
{
    let head = parts[0];
    if parts.len() == 1 {
        lemma_first_separator(head, head.len() as int);
        assert(parts =~= seq![head]);
    } else {
        let tail = parts.drop_first();
        assert forall|i: int| 0 <= i < tail.len() implies separator_free(#[trigger] tail[i]) by {
            assert(tail[i] == parts[i + 1]);
        }
        lemma_tokens_join(tail);
        let whole = join(parts);
        assert(whole == head + seq![SEPARATOR] + join(tail));
        lemma_first_separator(whole, head.len() as int);
        assert(whole.take(head.len() as int) =~= head);
        assert(whole.skip(head.len() as int + 1) =~= join(tail));
        assert(parts =~= seq![head] + tail);
    }
}

/// The separator alone is valid UTF-8.
proof fn lemma_separator_is_utf8()
    ensures
        valid_utf8(seq![SEPARATOR]),
{
    let s = seq![SEPARATOR];
    assert(s[0] == 0x20u8);
    assert((0x20u8 & 0x7F) as u32 == 0x20u32) by (bit_vector);
    assert(valid_first_scalar(s));
    assert(pop_first_scalar(s) =~= Seq::<u8>::empty());
    assert(valid_utf8(pop_first_scalar(s)));
}

/// Cutting valid UTF-8 at a separator leaves valid UTF-8 on both sides.
proof fn lemma_cut_at_separator(bytes: Seq<u8>, k: int)
    requires
        valid_utf8(bytes),
        0 <= k < bytes.len(),
        bytes[k] == SEPARATOR,
    ensures
        valid_utf8(bytes.take(k)),
        valid_utf8(bytes.skip(k + 1)),
{
    is_char_boundary_iff_not_is_continuation_byte(bytes, k);
    valid_utf8_split(bytes, k);
    let right = bytes.subrange(k, bytes.len() as int);
    assert(right[0] == 0x20u8);
    assert(valid_first_scalar(right));
    assert(pop_first_scalar(right) =~= bytes.skip(k + 1));
    assert(bytes.take(k) =~= bytes.subrange(0, k));
}

/// A list is valid UTF-8 exactly when each of its tokens is: a separator
/// never falls inside the encoding of a character.
pub proof fn lemma_tokens_utf8(bytes: Seq<u8>)
    ensures
        valid_utf8(bytes) <==> forall|i: int|
            0 <= i < tokens(bytes).len() ==> valid_utf8(#[trigger] tokens(bytes)[i]),
    decreases bytes.len(),
{
    lemma_first_separator_bounds(bytes);
    let k = first_separator(bytes);
    let all = tokens(bytes);
    if k < bytes.len() {
        let head = bytes.take(k);
        let rest = bytes.skip(k + 1);
        lemma_tokens_utf8(rest);
        assert(all[0] == head);
        assert(all.drop_first() =~= tokens(rest));
        if valid_utf8(bytes) {
            lemma_cut_at_separator(bytes, k);
            assert forall|i: int| 0 <= i < all.len() implies valid_utf8(#[trigger] all[i]) by {
                if i > 0 {
                    assert(all[i] == tokens(rest)[i - 1]);
                }
            }
        }
        if forall|i: int| 0 <= i < all.len() ==> valid_utf8(#[trigger] all[i]) {
            assert forall|i: int| 0 <= i < tokens(rest).len() implies valid_utf8(
                #[trigger] tokens(rest)[i],
            ) by {
                assert(tokens(rest)[i] == all[i + 1]);
            }
            lemma_separator_is_utf8();
            valid_utf8_concat(head, seq![SEPARATOR]);
            valid_utf8_concat(head + seq![SEPARATOR], rest);
            assert(bytes =~= head + seq![SEPARATOR] + rest);
        }
    } else {
        assert(all =~= seq![bytes]);
        assert(all[0] == bytes);
    }
}

/// What a vector of byte buffers holds.
pub open spec fn buffers(parts: Seq<Vec<u8>>) -> Seq<Seq<u8>> {
    Seq::new(parts.len(), |i: int| parts[i]@)
}

/// True when no character of `name` is a space.
pub open spec fn space_free(name: Seq<char>) -> bool {
    forall|i: int| 0 <= i < name.len() ==> name[i] != ' '
}

/// Only the space is encoded with the byte `0x20`: the one byte of another
/// ASCII character is the character, and every byte of a longer encoding
/// has its top bit set.
proof fn lemma_scalar_bytes(c: char)
    requires
        c != ' ',
    ensures
        separator_free(encode_scalar(c as u32)),
{
    let s = c as u32;
    assert(s <= 0x7f ==> (s & 0x7F) as u8 == s) by (bit_vector);
    assert((0xC0u8 | ((s >> 6) & 0x1F) as u8) >= 0x80u8) by (bit_vector);
    assert((0xE0u8 | ((s >> 12) & 0x0F) as u8) >= 0x80u8) by (bit_vector);
    assert((0xF0u8 | ((s >> 18) & 0x7) as u8) >= 0x80u8) by (bit_vector);
    assert((0x80u8 | (s & 0x3F) as u8) >= 0x80u8) by (bit_vector);
    assert((0x80u8 | ((s >> 6) & 0x3F) as u8) >= 0x80u8) by (bit_vector);
    assert((0x80u8 | ((s >> 12) & 0x3F) as u8) >= 0x80u8) by (bit_vector);
}

/// A string without a space is encoded without a separator.
pub proof fn lemma_space_free_encoding(name: Seq<char>)
    requires
        space_free(name),
    ensures
        separator_free(encode_utf8(name)),
    decreases name.len(),
{
    if name.len() > 0 {
        let head = encode_scalar(name[0] as u32);
        let tail = name.drop_first();
        assert forall|i: int| 0 <= i < tail.len() implies tail[i] != ' ' by {
            assert(tail[i] == name[i + 1]);
        }
        lemma_space_free_encoding(tail);
        lemma_scalar_bytes(name[0]);
        assert forall|i: int| 0 <= i < encode_utf8(name).len() implies encode_utf8(name)[i]
            != SEPARATOR by {
            if i < head.len() {
                assert(encode_utf8(name)[i] == head[i]);
            } else {
                assert(encode_utf8(name)[i] == encode_utf8(tail)[i - head.len()]);
            }
        }
    }
}

/// What is joined is read back: a list built from at least one string, none
/// of which holds a space, is valid UTF-8 and its tokens are those strings.
pub proof fn lemma_texts_round_trip(names: Seq<Seq<char>>)
    requires
        names.len() >= 1,
        forall|i: int| 0 <= i < names.len() ==> space_free(#[trigger] names[i]),
    ensures
        valid_utf8(join(encoded(names))),
        decoded(tokens(join(encoded(names)))) == names,
{
    let parts = encoded(names);
    assert forall|i: int| 0 <= i < parts.len() implies separator_free(#[trigger] parts[i]) by {
        lemma_space_free_encoding(names[i]);
    }
    lemma_tokens_join(parts);
    lemma_tokens_utf8(join(parts));
    assert forall|i: int| 0 <= i < parts.len() implies valid_utf8(#[trigger] parts[i]) by {
        encode_utf8_valid_utf8(names[i]);
    }
    assert forall|i: int| 0 <= i < names.len() implies decoded(parts)[i] == names[i] by {
        encode_utf8_decode_utf8(names[i]);
    }
    assert(decoded(parts) =~= names);
}

/// Splits a list into its tokens.
pub fn split_tokens(bytes: &[u8]) -> (out: Vec<Vec<u8>>)
    ensures
        buffers(out@) == tokens(bytes@),
{
    let mut out: Vec<Vec<u8>> = Vec::new();
    let mut current: Vec<u8> = Vec::new();
    let ghost mut start: int = 0;
    let mut i: usize = 0;
    assert(bytes@.skip(0) =~= bytes@);
    assert(buffers(out@) + tokens(bytes@) =~= tokens(bytes@));
    while i < bytes.len()
        invariant
            0 <= start <= i <= bytes.len(),
            current@ == bytes@.subrange(start, i as int),
            separator_free(current@),
            tokens(bytes@) == buffers(out@) + tokens(bytes@.skip(start)),
        decreases bytes.len() - i,
    {
        let b = bytes[i];
        if b == SEPARATOR {
            proof {
                let rest = bytes@.skip(start);
                assert forall|j: int| 0 <= j < i - start implies rest[j] != SEPARATOR by {
                    assert(rest[j] == current@[j]);
                }
                lemma_first_separator(rest, i - start);
                assert(rest.take(i - start) =~= current@);
                assert(rest.skip(i - start + 1) =~= bytes@.skip(i + 1));
                assert(buffers(out@).push(current@) + tokens(bytes@.skip(i + 1))
                    =~= buffers(out@) + tokens(rest));
            }
            let ghost before = buffers(out@);
            out.push(current);
            assert(buffers(out@) =~= before.push(current@));
            current = Vec::new();
            proof {
                start = i + 1;
            }
            assert(current@ =~= bytes@.subrange(start, i + 1));
        } else {
            let ghost before = current@;
            current.push(b);
            assert(current@ =~= bytes@.subrange(start, i + 1));
        }
        i += 1;
    }
    proof {
        let rest = bytes@.skip(start);
        assert(rest =~= current@);
        lemma_first_separator(rest, rest.len() as int);
        assert(tokens(rest) =~= seq![current@]);
        assert(buffers(out@).push(current@) =~= buffers(out@) + tokens(rest));
    }
    let ghost before = buffers(out@);
    out.push(current);
    assert(buffers(out@) =~= before.push(current@));
    out
}

/// Appends the UTF-8 bytes of `text` to `out`.
pub fn push_text(out: &mut Vec<u8>, text: &str)
    ensures
        final(out)@ == old(out)@ + encode_utf8(text@),
{
    let bytes = text.as_bytes();
    let mut i: usize = 0;
    while i < bytes.len()
        invariant
            i <= bytes.len(),
            bytes@ == encode_utf8(text@),
            out@ == old(out)@ + bytes@.take(i as int),
        decreases bytes.len() - i,
    {
        out.push(bytes[i]);
        assert(bytes@.take(i + 1) =~= bytes@.take(i as int).push(bytes@[i as int]));
        i += 1;
    }
    assert(bytes@.take(bytes.len() as int) =~= bytes@);
}

/// Adding a part to a list that already has one appends a separator and the part.
pub proof fn lemma_join_push(parts: Seq<Seq<u8>>, last: Seq<u8>)
    requires
        parts.len() >= 1,
    ensures
        join(parts.push(last)) == join(parts) + seq![SEPARATOR] + last,
    decreases parts.len(),
{
    let all = parts.push(last);
    assert(all[0] == parts[0]);
    if parts.len() == 1 {
        assert(all.drop_first() =~= seq![last]);
        assert(join(all.drop_first()) == last);
    } else {
        let tail = parts.drop_first();
        lemma_join_push(tail, last);
        assert(all.drop_first() =~= tail.push(last));
        assert(join(all) =~= join(parts) + seq![SEPARATOR] + last);
    }
}

/// Builds the list that holds the given strings in order.
pub fn join_texts(names: &Vec<String>) -> (out: Vec<u8>)
    ensures
        out@ == join(encoded(names.deep_view())),
{
    let ghost parts = encoded(names.deep_view());
    let mut out: Vec<u8> = Vec::new();
    let mut i: usize = 0;
    assert(parts.take(0) =~= Seq::<Seq<u8>>::empty());
    while i < names.len()
        invariant
            i <= names.len(),
            parts == encoded(names.deep_view()),
            parts.len() == names.len(),
            out@ == join(parts.take(i as int)),
        decreases names.len() - i,
    {
        let ghost done = parts.take(i as int);
        assert(parts.take(i + 1) =~= done.push(parts[i as int]));
        assert(parts[i as int] == encode_utf8(names[i as int]@));
        if i > 0 {
            out.push(SEPARATOR);
            proof {
                lemma_join_push(done, parts[i as int]);
            }
        } else {
            assert(done.push(parts[i as int]) =~= seq![parts[i as int]]);
        }
        push_text(&mut out, names[i].as_str());
        assert(out@ =~= join(parts.take(i + 1)));
        i += 1;
    }
    assert(parts.take(names.len() as int) =~= parts);
    out
}

/// The error of `String::from_utf8`, of which nothing is read here.
#[verifier::external_type_specification]
#[verifier::external_body]
pub struct ExFromUtf8Error(FromUtf8Error);

/// `String::from_utf8` is taken on trust: it succeeds exactly on valid
/// UTF-8, and the string it then returns is made of the bytes it was given.
pub assume_specification[ String::from_utf8 ](vec: Vec<u8>) -> (r: Result<String, FromUtf8Error>)
    ensures
        r is Ok <==> valid_utf8(vec@),
        r is Ok ==> encode_utf8(r->Ok_0@) == vec@,
;

/// Reads `bytes` as UTF-8 text; `None` when they are not valid UTF-8.
pub fn text_of(bytes: Vec<u8>) -> (r: Option<String>)
    ensures
        r is Some <==> valid_utf8(bytes@),
        r is Some ==> r->Some_0@ == decode_utf8(bytes@),
{
    match String::from_utf8(bytes) {
        Ok(s) => {
            proof {
                encode_utf8_decode_utf8(s@);
            }
            Some(s)
        },
        Err(_) => None,
    }
}

/// Reads a list of UTF-8 tokens as strings, one per token; `None` when the
/// list is not valid UTF-8.
pub fn texts_of(bytes: &[u8]) -> (r: Option<Vec<String>>)
    ensures
        r is Some <==> valid_utf8(bytes@),
        r is Some ==> r->Some_0.deep_view() == decoded(tokens(bytes@)),
{
    let parts = split_tokens(bytes);
    let ghost all = tokens(bytes@);
    proof {
        lemma_tokens_utf8(bytes@);
    }
    let mut out: Vec<String> = Vec::new();
    let mut parts = parts;
    let n = parts.len();
    assert forall|j: int| 0 <= j < n implies (#[trigger] parts[j])@ == all[j] by {
        assert(buffers(parts@)[j] == all[j]);
    }
    let mut i: usize = 0;
    assert(out.deep_view() =~= decoded(all).take(0));
    while i < n
        invariant
            i <= n == parts.len() == all.len(),
            forall|j: int| i <= j < n ==> (#[trigger] parts[j])@ == all[j],
            forall|j: int| 0 <= j < i ==> valid_utf8(#[trigger] all[j]),
            out.deep_view() == decoded(all).take(i as int),
            all == tokens(bytes@),
            valid_utf8(bytes@) <==> forall|j: int|
                0 <= j < all.len() ==> valid_utf8(#[trigger] all[j]),
        decreases n - i,
    {
        let mut part: Vec<u8> = Vec::new();
        std::mem::swap(&mut part, &mut parts[i]);
        match text_of(part) {
            Some(s) => {
                let ghost before = out.deep_view();
                out.push(s);
                assert(out.deep_view() =~= before.push(s@));
                assert(decoded(all).take(i + 1) =~= decoded(all).take(i as int).push(
                    decoded(all)[i as int],
                ));
            },
            None => {
                assert(!valid_utf8(all[i as int]));
                return None;
            },
        }
        i += 1;
    }
    assert(decoded(all).take(n as int) =~= decoded(all));
    Some(out)
}

} // verus!
