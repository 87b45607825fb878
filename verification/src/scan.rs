//! Byte-level scanning used by the assembler: splitting source text into
//! lines and statements, tokenizing by whitespace, stripping comments and
//! parsing decimal literals.
//!
//! Each executable routine is verified against a recursive specification
//! over `Seq<u8>`; the lemmas below let index-based scans step through
//! those specifications one separator or one token at a time.

use vstd::prelude::*;

verus! {

/// ASCII whitespace as the tokenizer sees it: space, tab, line feed,
/// vertical tab, form feed and carriage return.
pub open spec fn is_space(b: u8) -> bool {
    b == 32 || (9 <= b && b <= 13)
}

/// ASCII decimal digit.
pub open spec fn is_digit(b: u8) -> bool {
    48 <= b && b <= 57
}

/// Exec mirror of [`is_space`].
pub fn byte_is_space(b: u8) -> (r: bool)
    ensures
        r == is_space(b),
{
    b == 32 || (9 <= b && b <= 13)
}

/// Exec mirror of [`is_digit`].
pub fn byte_is_digit(b: u8) -> (r: bool)
    ensures
        r == is_digit(b),
{
    48 <= b && b <= 57
}

/// Split `s` at every occurrence of `sep`. The result always has at least
/// one piece; separators are not kept, and empty pieces are kept.
pub open spec fn split_on(s: Seq<u8>, sep: u8) -> Seq<Seq<u8>>
    decreases s.len(),
{
    if s.len() == 0 {
        seq![Seq::<u8>::empty()]
    } else {
        let rest = split_on(s.drop_first(), sep);
        if s[0] == sep {
            seq![Seq::<u8>::empty()] + rest
        } else {
            seq![seq![s[0]] + rest[0]] + rest.drop_first()
        }
    }
}

/// The maximal whitespace-separated words of `s`, in order; no word is
/// empty and no word contains whitespace.
pub open spec fn tokens_of(s: Seq<u8>) -> Seq<Seq<u8>>
    decreases s.len(),
{
    if s.len() == 0 {
        Seq::<Seq<u8>>::empty()
    } else if is_space(s[0]) {
        tokens_of(s.drop_first())
    } else if s.len() == 1 {
        seq![s]
    } else if is_space(s[1]) {
        seq![seq![s[0]]] + tokens_of(s.drop_first())
    } else {
        let rest = tokens_of(s.drop_first());
        seq![seq![s[0]] + rest[0]] + rest.drop_first()
    }
}

/// The part of a line before its first `//` comment marker (the whole
/// line when there is none).
pub open spec fn comment_prefix(s: Seq<u8>) -> Seq<u8>
    decreases s.len(),
{
    if s.len() < 2 {
        s
    } else if s[0] == 47 && s[1] == 47 {
        Seq::<u8>::empty()
    } else {
        seq![s[0]] + comment_prefix(s.drop_first())
    }
}

/// The integer a digit string denotes, most significant digit first.
/// Meaningful only when every byte satisfies [`is_digit`].
pub open spec fn digits_value(s: Seq<u8>) -> int
    decreases s.len(),
{
    if s.len() == 0 {
        0
    } else {
        digits_value(s.drop_last()) * 10 + (s.last() - 48)
    }
}

/// Every byte of `s` is an ASCII decimal digit.
pub open spec fn all_digits(s: Seq<u8>) -> bool {
    forall|i: int| 0 <= i < s.len() ==> is_digit(#[trigger] s[i])
}

/// A plain 0-255 decimal literal: one or more digits whose value fits in
/// a byte. Anything else (empty, a sign, stray characters, overflow) is
/// `None`.
pub open spec fn parse_u8(s: Seq<u8>) -> Option<u8> {
    if s.len() > 0 && all_digits(s) && digits_value(s) <= 255 {
        Some(digits_value(s) as u8)
    } else {
        None
    }
}

/// The views of a sequence of byte vectors.
pub open spec fn seq_views(v: Seq<Vec<u8>>) -> Seq<Seq<u8>> {
    Seq::new(v.len(), |i: int| v[i]@)
}

/// Splitting a sequence with no separator yields that sequence alone.
pub proof fn lemma_split_on_no_sep(s: Seq<u8>, sep: u8)
    requires
        forall|j: int| 0 <= j < s.len() ==> s[j] != sep,
    ensures
        split_on(s, sep) == seq![s],
    decreases s.len(),
{
    if s.len() == 0 {
        assert(s =~= Seq::<u8>::empty());
        assert(split_on(s, sep) == seq![s]);
    } else {
        lemma_split_on_no_sep(s.drop_first(), sep);
        let rest = split_on(s.drop_first(), sep);
        assert(rest[0] == s.drop_first());
        assert(seq![s[0]] + s.drop_first() =~= s);
        assert(rest.drop_first() =~= Seq::<Seq<u8>>::empty());
        assert(split_on(s, sep) =~= seq![s]);
    }
}

/// Splitting at the first separator: the piece before it, then the split
/// of what follows it.
pub proof fn lemma_split_on_found(s: Seq<u8>, sep: u8, i: int)
    requires
        0 <= i < s.len(),
        s[i] == sep,
        forall|j: int| 0 <= j < i ==> s[j] != sep,
    ensures
        split_on(s, sep) == seq![s.take(i)] + split_on(s.skip(i + 1), sep),
    decreases i,
{
    if i == 0 {
        assert(s.take(0) =~= Seq::<u8>::empty());
        assert(s.skip(1) =~= s.drop_first());
        assert(split_on(s, sep) == seq![Seq::<u8>::empty()] + split_on(s.drop_first(), sep));
    } else {
        let d = s.drop_first();
        lemma_split_on_found(d, sep, i - 1);
        let rest = split_on(d, sep);
        assert(rest == seq![d.take(i - 1)] + split_on(d.skip(i), sep));
        assert(rest[0] == d.take(i - 1));
        assert(seq![s[0]] + d.take(i - 1) =~= s.take(i));
        assert(rest.drop_first() =~= split_on(d.skip(i), sep));
        assert(d.skip(i) =~= s.skip(i + 1));
        assert(split_on(s, sep) =~= seq![s.take(i)] + split_on(s.skip(i + 1), sep));
    }
}

/// Tokenizing a sequence of nothing but whitespace yields no tokens.
pub proof fn lemma_tokens_all_space(s: Seq<u8>)
    requires
        forall|j: int| 0 <= j < s.len() ==> is_space(#[trigger] s[j]),
    ensures
        tokens_of(s) == Seq::<Seq<u8>>::empty(),
    decreases s.len(),
{
    if s.len() > 0 {
        lemma_tokens_all_space(s.drop_first());
    }
}

/// Taking one token off the front: `s` starts with `k` non-space bytes
/// followed by a space or the end, so its tokens are that word followed
/// by the tokens of the remainder.
pub proof fn lemma_tokens_take_token(s: Seq<u8>, k: int)
    requires
        0 < k <= s.len(),
        forall|j: int| 0 <= j < k ==> !is_space(#[trigger] s[j]),
        k == s.len() || is_space(s[k]),
    ensures
        tokens_of(s) == seq![s.take(k)] + tokens_of(s.skip(k)),
    decreases k,
{
    if k == 1 {
        if s.len() == 1 {
            assert(s.take(1) =~= s);
            assert(s.skip(1) =~= Seq::<u8>::empty());
            assert(tokens_of(s) =~= seq![s.take(1)] + tokens_of(s.skip(1)));
        } else {
            assert(is_space(s[1]));
            assert(s.take(1) =~= seq![s[0]]);
            assert(s.skip(1) =~= s.drop_first());
            assert(tokens_of(s) == seq![seq![s[0]]] + tokens_of(s.drop_first()));
        }
    } else {
        let d = s.drop_first();
        assert(!is_space(s[1]));
        assert(forall|j: int| 0 <= j < k - 1 ==> !is_space(#[trigger] d[j]));
        assert(k - 1 == d.len() || is_space(d[k - 1]));
        lemma_tokens_take_token(d, k - 1);
        let rest = tokens_of(d);
        assert(rest == seq![d.take(k - 1)] + tokens_of(d.skip(k - 1)));
        assert(rest[0] == d.take(k - 1));
        assert(seq![s[0]] + d.take(k - 1) =~= s.take(k));
        assert(rest.drop_first() =~= tokens_of(d.skip(k - 1)));
        assert(d.skip(k - 1) =~= s.skip(k));
        assert(tokens_of(s) =~= seq![s.take(k)] + tokens_of(s.skip(k)));
    }
}

/// A line with no `//` anywhere keeps all of its bytes.
pub proof fn lemma_comment_prefix_none(s: Seq<u8>)
    requires
        forall|j: int| 0 <= j && j + 1 < s.len() ==> !((#[trigger] s[j]) == 47 && s[j + 1] == 47),
    ensures
        comment_prefix(s) == s,
    decreases s.len(),
{
    if s.len() >= 2 {
        lemma_comment_prefix_none(s.drop_first());
        assert(seq![s[0]] + s.drop_first() =~= s);
    }
}

/// A line whose first `//` sits at position `i` keeps exactly the bytes
/// before it.
pub proof fn lemma_comment_prefix_at(s: Seq<u8>, i: int)
    requires
        0 <= i,
        i + 1 < s.len(),
        s[i] == 47 && s[i + 1] == 47,
        forall|j: int| 0 <= j < i ==> !((#[trigger] s[j]) == 47 && s[j + 1] == 47),
    ensures
        comment_prefix(s) == s.take(i),
    decreases i,
{
    if i == 0 {
        assert(s.take(0) =~= Seq::<u8>::empty());
    } else {
        let d = s.drop_first();
        lemma_comment_prefix_at(d, i - 1);
        assert(seq![s[0]] + d.take(i - 1) =~= s.take(i));
    }
}

/// Appending one digit multiplies the value so far by ten.
pub proof fn lemma_digits_value_step(s: Seq<u8>, i: int)
    requires
        0 <= i < s.len(),
    ensures
        digits_value(s.take(i + 1)) == digits_value(s.take(i)) * 10 + (s[i] - 48),
{
    let t = s.take(i + 1);
    assert(t.drop_last() =~= s.take(i));
    assert(t.last() == s[i]);
}

/// The value of a digit string is never negative.
pub proof fn lemma_digits_value_nonneg(s: Seq<u8>)
    requires
        all_digits(s),
    ensures
        digits_value(s) >= 0,
    decreases s.len(),
{
    if s.len() > 0 {
        assert(all_digits(s.drop_last()));
        lemma_digits_value_nonneg(s.drop_last());
    }
}

/// Once a prefix of the digit string exceeds 255, the whole string does:
/// later bytes can only grow the value past that bound.
pub proof fn lemma_digits_value_overflow_persists(s: Seq<u8>, i: int)
    requires
        0 <= i <= s.len(),
        digits_value(s.take(i)) > 255,
    ensures
        digits_value(s) > 255,
    decreases s.len() - i,
{
    if i == s.len() {
        assert(s.take(i) =~= s);
    } else {
        lemma_digits_value_step(s, i);
        assert(digits_value(s.take(i + 1)) > 255);
        lemma_digits_value_overflow_persists(s, i + 1);
    }
}

/// Find the first occurrence of `sep` in `s` at or after `from`;
/// `s.len()` means there is none.
pub fn find_byte(s: &[u8], from: usize, sep: u8) -> (r: usize)
    requires
        from <= s@.len(),
    ensures
        from <= r <= s@.len(),
        forall|j: int| from <= j < r ==> s@[j] != sep,
        r < s@.len() ==> s@[r as int] == sep,
{
    let mut i: usize = from;
    while i < s.len()
        invariant
            from <= i <= s@.len(),
            forall|j: int| from <= j < i ==> s@[j] != sep,
        decreases s@.len() - i,
    {
        if s[i] == sep {
            return i;
        }
        i = i + 1;
    }
    i
}

/// Split a byte slice at every occurrence of `sep`, keeping empty pieces.
pub fn split_bytes(s: &[u8], sep: u8) -> (r: Vec<Vec<u8>>)
    ensures
        seq_views(r@) == split_on(s@, sep),
{
    let mut parts: Vec<Vec<u8>> = Vec::new();
    let mut pos: usize = 0;
    proof {
        assert(seq_views(parts@) =~= Seq::<Seq<u8>>::empty());
        assert(s@.skip(0) =~= s@);
    }
    let mut i: usize = find_byte(s, 0, sep);
    while i < s.len()
        invariant
            pos <= i <= s@.len(),
            forall|j: int| pos <= j < i ==> s@[j] != sep,
            i < s@.len() ==> s@[i as int] == sep,
            split_on(s@, sep) == seq_views(parts@) + split_on(s@.skip(pos as int), sep),
        decreases s@.len() - pos,
    {
        let piece = vstd::slice::slice_to_vec(vstd::slice::slice_subrange(s, pos, i));
        proof {
            let rem = s@.skip(pos as int);
            assert(rem[i - pos] == sep);
            assert(forall|j: int| 0 <= j < i - pos ==> rem[j] != sep);
            lemma_split_on_found(rem, sep, i - pos);
            assert(rem.take(i - pos) =~= s@.subrange(pos as int, i as int));
            assert(rem.skip(i - pos + 1) =~= s@.skip(i + 1));
        }
        parts.push(piece);
        proof {
            assert(seq_views(parts@) =~= seq_views(parts@.drop_last()) + seq![s@.subrange(
                pos as int,
                i as int,
            )]);
            assert(seq_views(parts@) + split_on(s@.skip(i + 1), sep) =~= (seq_views(
                parts@.drop_last(),
            ) + split_on(s@.skip(pos as int), sep)));
        }
        pos = i + 1;
        i = find_byte(s, pos, sep);
    }
    let piece = vstd::slice::slice_to_vec(vstd::slice::slice_subrange(s, pos, s.len()));
    proof {
        let rem = s@.skip(pos as int);
        assert(forall|j: int| 0 <= j < rem.len() ==> rem[j] != sep);
        lemma_split_on_no_sep(rem, sep);
        assert(rem =~= s@.subrange(pos as int, s@.len() as int));
    }
    parts.push(piece);
    proof {
        assert(seq_views(parts@) =~= seq_views(parts@.drop_last()) + seq![s@.skip(pos as int)]);
        assert(seq_views(parts@) =~= seq_views(parts@.drop_last()) + split_on(
            s@.skip(pos as int),
            sep,
        ));
    }
    parts
}

/// Cut a line short at its first `//` comment marker.
pub fn strip_comment<'a>(line: &'a [u8]) -> (r: &'a [u8])
    ensures
        r@ == comment_prefix(line@),
{
    let n = line.len();
    let mut i: usize = 0;
    while i < n
        invariant
            n == line@.len(),
            0 <= i <= n,
            forall|j: int|
                0 <= j < i && j + 1 < n ==> !((#[trigger] line@[j]) == 47 && line@[j + 1] == 47),
        decreases n - i,
    {
        if i + 1 < n && line[i] == 47 && line[i + 1] == 47 {
            proof {
                lemma_comment_prefix_at(line@, i as int);
            }
            return vstd::slice::slice_subrange(line, 0, i);
        }
        i = i + 1;
    }
    proof {
        lemma_comment_prefix_none(line@);
    }
    vstd::slice::slice_subrange(line, 0, line.len())
}

/// Break a statement into its whitespace-separated tokens.
pub fn tokenize(s: &[u8]) -> (r: Vec<Vec<u8>>)
    ensures
        seq_views(r@) == tokens_of(s@),
{
    let mut toks: Vec<Vec<u8>> = Vec::new();
    let mut pos: usize = 0;
    proof {
        assert(seq_views(toks@) =~= Seq::<Seq<u8>>::empty());
        assert(s@.skip(0) =~= s@);
    }
    while pos < s.len()
        invariant
            pos <= s@.len(),
            tokens_of(s@) == seq_views(toks@) + tokens_of(s@.skip(pos as int)),
        decreases s@.len() - pos,
    {
        if byte_is_space(s[pos]) {
            proof {
                let rem = s@.skip(pos as int);
                assert(rem.drop_first() =~= s@.skip(pos + 1));
            }
            pos = pos + 1;
        } else {
            let mut end: usize = pos + 1;
            while end < s.len() && !byte_is_space(s[end])
                invariant
                    pos < end <= s@.len(),
                    forall|j: int| pos <= j < end ==> !is_space(#[trigger] s@[j]),
                decreases s@.len() - end,
            {
                end = end + 1;
            }
            let tok = vstd::slice::slice_to_vec(vstd::slice::slice_subrange(s, pos, end));
            proof {
                let rem = s@.skip(pos as int);
                let k = end - pos;
                assert(forall|j: int| 0 <= j < k ==> !is_space(#[trigger] rem[j]));
                assert(k == rem.len() || is_space(rem[k as int]));
                lemma_tokens_take_token(rem, k);
                assert(rem.take(k) =~= s@.subrange(pos as int, end as int));
                assert(rem.skip(k) =~= s@.skip(end as int));
            }
            toks.push(tok);
            proof {
                assert(seq_views(toks@) =~= seq_views(toks@.drop_last()) + seq![s@.subrange(
                    pos as int,
                    end as int,
                )]);
                assert(seq_views(toks@) + tokens_of(s@.skip(end as int)) =~= seq_views(
                    toks@.drop_last(),
                ) + tokens_of(s@.skip(pos as int)));
            }
            pos = end;
        }
    }
    proof {
        assert(s@.skip(pos as int) =~= Seq::<u8>::empty());
        assert(tokens_of(s@.skip(pos as int)) =~= Seq::<Seq<u8>>::empty());
        assert(seq_views(toks@) =~= tokens_of(s@));
    }
    toks
}

/// Parse a token as a plain 0-255 decimal literal.
pub fn parse_decimal_u8(s: &[u8]) -> (r: Option<u8>)
    ensures
        r == parse_u8(s@),
{
    if s.len() == 0 {
        return None;
    }
    let mut acc: u32 = 0;
    let mut i: usize = 0;
    while i < s.len()
        invariant
            0 <= i <= s@.len(),
            forall|j: int| 0 <= j < i ==> is_digit(#[trigger] s@[j]),
            acc == digits_value(s@.take(i as int)),
            acc <= 255,
        decreases s@.len() - i,
    {
        let b = s[i];
        if !byte_is_digit(b) {
            assert(!all_digits(s@));
            return None;
        }
        proof {
            lemma_digits_value_step(s@, i as int);
        }
        acc = acc * 10 + (b - 48) as u32;
        i = i + 1;
        if acc > 255 {
            proof {
                lemma_digits_value_overflow_persists(s@, i as int);
            }
            return None;
        }
    }
    proof {
        assert(s@.take(i as int) =~= s@);
    }
    Some(acc as u8)
}

/// Whether two byte slices hold the same bytes.
pub fn bytes_eq(a: &[u8], b: &[u8]) -> (r: bool)
    ensures
        r == (a@ == b@),
{
    if a.len() != b.len() {
        return false;
    }
    let mut i: usize = 0;
    while i < a.len()
        invariant
            a@.len() == b@.len(),
            0 <= i <= a@.len(),
            forall|j: int| 0 <= j < i ==> a@[j] == b@[j],
        decreases a@.len() - i,
    {
        if a[i] != b[i] {
            return false;
        }
        i = i + 1;
    }
    proof {
        assert(a@ =~= b@);
    }
    true
}

} // verus!
