//! Readers for the fixed-size and length-prefixed fields of the archive
//! format, each paired with the parser over bytes that says what it reads.
use vstd::prelude::*;
use vstd::utf8::{decode_utf8, valid_utf8};

use crate::codec::string_from_utf8;
use crate::errors::BrzError;
use crate::le::{bits_to_i32, bytes_to_vec, i32_from_le, take_bytes, u16_from_le, u16_of_le, u32_of_le};

verus! {

/// Result of a parser over bytes: the value and what is left of the input.
pub type Parsed<T> = Result<(T, Seq<u8>), BrzError>;

/// One byte.
pub open spec fn p_u8(s: Seq<u8>) -> Parsed<u8> {
    if s.len() < 1 {
        Err(BrzError::UnexpectedEof)
    } else {
        Ok((s[0], s.skip(1)))
    }
}

/// A little-endian `u16`.
pub open spec fn p_u16(s: Seq<u8>) -> Parsed<u16> {
    if s.len() < 2 {
        Err(BrzError::UnexpectedEof)
    } else {
        Ok((u16_from_le(s.take(2)), s.skip(2)))
    }
}

/// A little-endian `i32`.
pub open spec fn p_i32(s: Seq<u8>) -> Parsed<i32> {
    if s.len() < 4 {
        Err(BrzError::UnexpectedEof)
    } else {
        Ok((i32_from_le(s.take(4)), s.skip(4)))
    }
}

/// `len` bytes of UTF-8.
pub open spec fn p_string(s: Seq<u8>, len: u16) -> Parsed<Seq<char>> {
    if s.len() < len {
        Err(BrzError::UnexpectedEof)
    } else if !valid_utf8(s.take(len as int)) {
        Err(BrzError::InvalidUtf8)
    } else {
        Ok((decode_utf8(s.take(len as int)), s.skip(len as int)))
    }
}

/// `n` bytes.
pub open spec fn p_bytes(s: Seq<u8>, n: nat) -> Parsed<Seq<u8>> {
    if s.len() < n {
        Err(BrzError::UnexpectedEof)
    } else {
        Ok((s.take(n as int), s.skip(n as int)))
    }
}

/// Reads one byte.
pub fn read_u8(r: &mut &[u8]) -> (res: Result<u8, BrzError>)
    ensures
        match p_u8(old(r)@) {
            Ok((v, rest)) => res == Ok::<u8, BrzError>(v) && final(r)@ == rest,
            Err(e) => res == Err::<u8, BrzError>(e),
        },
{
    match take_bytes(r, 1) {
        Some(b) => Ok(b[0]),
        None => Err(BrzError::UnexpectedEof),
    }
}

/// Reads a little-endian `i32`.
pub fn read_i32(r: &mut &[u8]) -> (res: Result<i32, BrzError>)
    ensures
        match p_i32(old(r)@) {
            Ok((v, rest)) => res == Ok::<i32, BrzError>(v) && final(r)@ == rest,
            Err(e) => res == Err::<i32, BrzError>(e),
        },
{
    match take_bytes(r, 4) {
        Some(b) => Ok(bits_to_i32(u32_of_le(b))),
        None => Err(BrzError::UnexpectedEof),
    }
}

/// Reads a little-endian `u16`.
pub fn read_u16(r: &mut &[u8]) -> (res: Result<u16, BrzError>)
    ensures
        match p_u16(old(r)@) {
            Ok((v, rest)) => res == Ok::<u16, BrzError>(v) && final(r)@ == rest,
            Err(e) => res == Err::<u16, BrzError>(e),
        },
{
    match take_bytes(r, 2) {
        Some(b) => Ok(u16_of_le(b)),
        None => Err(BrzError::UnexpectedEof),
    }
}

/// Reads `len` bytes and decodes them as UTF-8.
pub fn read_string(r: &mut &[u8], len: u16) -> (res: Result<String, BrzError>)
    ensures
        match p_string(old(r)@, len) {
            Ok((v, rest)) => res matches Ok(s) && s@ == v && final(r)@ == rest,
            Err(e) => res == Err::<String, BrzError>(e),
        },
{
    match take_bytes(r, len as usize) {
        Some(b) => {
            let v = bytes_to_vec(b);
            match string_from_utf8(v) {
                Some(s) => Ok(s),
                None => Err(BrzError::InvalidUtf8),
            }
        },
        None => Err(BrzError::UnexpectedEof),
    }
}

/// Reads a 32-byte digest.
pub fn read_hash(r: &mut &[u8]) -> (res: Result<[u8; 32], BrzError>)
    ensures
        match p_bytes(old(r)@, 32) {
            Ok((v, rest)) => res matches Ok(h) && h@ == v && final(r)@ == rest,
            Err(e) => res == Err::<[u8; 32], BrzError>(e),
        },
{
    match take_bytes(r, 32) {
        Some(b) => {
            let mut h = [0u8; 32];
            let mut i: usize = 0;
            while i < 32
                invariant
                    0 <= i <= 32,
                    b@.len() == 32,
                    forall|k: int| 0 <= k < i ==> h@[k] == b@[k],
                decreases 32 - i,
            {
                h[i] = b[i];
                i = i + 1;
            }
            assert(h@ =~= b@);
            Ok(h)
        },
        None => Err(BrzError::UnexpectedEof),
    }
}

/// `n` items, the one at position `start + k` parsed by `elem(start + k, ..)`,
/// one after the other; the first failure is the result.
pub open spec fn p_list<T>(elem: spec_fn(int, Seq<u8>) -> Parsed<T>, s: Seq<u8>, start: int, n: nat) -> Parsed<Seq<T>>
    decreases n,
{
    if n == 0 {
        Ok((seq![], s))
    } else {
        match elem(start, s) {
            Err(e) => Err(e),
            Ok((x, r)) => match p_list(elem, r, start + 1, (n - 1) as nat) {
                Err(e) => Err(e),
                Ok((xs, r2)) => Ok((seq![x] + xs, r2)),
            },
        }
    }
}

/// `done` in front of the items of a parse result.
pub open spec fn prefixed<T>(done: Seq<T>, res: Parsed<Seq<T>>) -> Parsed<Seq<T>> {
    match res {
        Err(e) => Err(e),
        Ok((xs, r)) => Ok((done + xs, r)),
    }
}

/// One step of a loop that parses a list from the front: the whole result is
/// what was parsed so far in front of what is left to parse.
pub proof fn lemma_p_list_step<T>(
    elem: spec_fn(int, Seq<u8>) -> Parsed<T>,
    whole: Parsed<Seq<T>>,
    done: Seq<T>,
    cur: Seq<u8>,
    i: int,
    left: nat,
    x: T,
    r: Seq<u8>,
)
    requires
        left > 0,
        whole == prefixed(done, p_list(elem, cur, i, left)),
        elem(i, cur) == Ok::<(T, Seq<u8>), BrzError>((x, r)),
    ensures
        whole == prefixed(done.push(x), p_list(elem, r, i + 1, (left - 1) as nat)),
{
    match p_list(elem, r, i + 1, (left - 1) as nat) {
        Err(e) => {},
        Ok((xs, r2)) => {
            assert(done + (seq![x] + xs) =~= done.push(x) + xs);
        },
    }
}

/// A failure in a loop that parses a list from the front is the failure of
/// the whole list.
pub proof fn lemma_p_list_err<T>(
    elem: spec_fn(int, Seq<u8>) -> Parsed<T>,
    whole: Parsed<Seq<T>>,
    done: Seq<T>,
    cur: Seq<u8>,
    i: int,
    left: nat,
    e: BrzError,
)
    requires
        left > 0,
        whole == prefixed(done, p_list(elem, cur, i, left)),
        elem(i, cur) == Err::<(T, Seq<u8>), BrzError>(e),
    ensures
        whole == Err::<(Seq<T>, Seq<u8>), BrzError>(e),
{
}

/// The end of a loop that parses a list from the front.
pub proof fn lemma_p_list_done<T>(
    elem: spec_fn(int, Seq<u8>) -> Parsed<T>,
    whole: Parsed<Seq<T>>,
    done: Seq<T>,
    cur: Seq<u8>,
    i: int,
)
    requires
        whole == prefixed(done, p_list(elem, cur, i, 0)),
    ensures
        whole == Ok::<(Seq<T>, Seq<u8>), BrzError>((done, cur)),
{
    assert(done + seq![] =~= done);
}

/// The start of a loop that parses a list from the front.
pub proof fn lemma_p_list_start<T>(elem: spec_fn(int, Seq<u8>) -> Parsed<T>, s: Seq<u8>, n: nat)
    ensures
        p_list(elem, s, 0, n) == prefixed(Seq::<T>::empty(), p_list(elem, s, 0, n)),
{
    match p_list(elem, s, 0, n) {
        Err(e) => {},
        Ok((xs, r)) => {
            assert(Seq::<T>::empty() + xs =~= xs);
        },
    }
}

/// A list of items written one after the other parses back to the items,
/// when each item's bytes parse back to it whatever follows them.
pub proof fn lemma_p_list_flatten<T>(
    elem: spec_fn(int, Seq<u8>) -> Parsed<T>,
    encs: Seq<Seq<u8>>,
    xs: Seq<T>,
    start: int,
    rest: Seq<u8>,
)
    requires
        encs.len() == xs.len(),
        forall|k: int, r: Seq<u8>|
            0 <= k < xs.len() ==> #[trigger] elem(start + k, encs[k] + r) == Ok::<
                (T, Seq<u8>),
                BrzError,
            >((xs[k], r)),
    ensures
        p_list(elem, encs.flatten() + rest, start, xs.len()) == Ok::<(Seq<T>, Seq<u8>), BrzError>(
            (xs, rest),
        ),
    decreases xs.len(),
{
    if xs.len() > 0 {
        let tail = encs.drop_first().flatten() + rest;
        assert(encs.flatten() + rest =~= encs[0] + tail);
        assert(elem(start + 0, encs[0] + tail) == Ok::<(T, Seq<u8>), BrzError>((xs[0], tail)));
        assert forall|k: int, r: Seq<u8>|
            0 <= k < xs.drop_first().len() implies #[trigger] elem(
            start + 1 + k,
            encs.drop_first()[k] + r,
        ) == Ok::<(T, Seq<u8>), BrzError>((xs.drop_first()[k], r)) by {
            assert(elem(start + (k + 1), encs[k + 1] + r) == Ok::<(T, Seq<u8>), BrzError>(
                (xs[k + 1], r),
            ));
            assert(start + (k + 1) == start + 1 + k);
        }
        lemma_p_list_flatten(elem, encs.drop_first(), xs.drop_first(), start + 1, rest);
        assert(seq![xs[0]] + xs.drop_first() =~= xs);
        assert(encs.flatten() == encs[0] + encs.drop_first().flatten());
        assert(encs.flatten() + rest == encs[0] + tail);
        assert(p_list(elem, tail, start + 1, (xs.len() - 1) as nat) == Ok::<(Seq<T>, Seq<u8>), BrzError>((xs.drop_first(), rest)));
    } else {
        assert(encs.flatten() + rest =~= rest);
        assert(xs =~= Seq::<T>::empty());
    }
}

/// A list that parsed is the bytes of its items, one after the other, in
/// front of what is left, when each item's bytes are those that parsed to it.
pub proof fn lemma_p_list_bytes<T>(
    elem: spec_fn(int, Seq<u8>) -> Parsed<T>,
    enc: spec_fn(T) -> Seq<u8>,
    s: Seq<u8>,
    start: int,
    n: nat,
)
    requires
        forall|k: int, t: Seq<u8>|
            #![trigger elem(k, t)]
            start <= k < start + n ==> (elem(k, t) matches Ok((x, r)) ==> t == enc(x) + r),
    ensures
        p_list(elem, s, start, n) matches Ok((xs, r)) ==> s == xs.map_values(enc).flatten() + r,
    decreases n,
{
    if n > 0 {
        match elem(start, s) {
            Err(e) => {},
            Ok((x, r)) => {
                lemma_p_list_bytes(elem, enc, r, start + 1, (n - 1) as nat);
                match p_list(elem, r, start + 1, (n - 1) as nat) {
                    Err(e) => {},
                    Ok((xs, r2)) => {
                        let all = seq![x] + xs;
                        assert(all.map_values(enc).drop_first() =~= xs.map_values(enc));
                        assert(all.map_values(enc)[0] == enc(x));
                        assert(s =~= all.map_values(enc).flatten() + r2);
                    },
                }
            },
        }
    } else {
        assert(Seq::<T>::empty().map_values(enc) =~= Seq::<Seq<u8>>::empty());
    }
}

} // verus!
