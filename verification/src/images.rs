//! Image-file recognition, the natural (number-aware) ordering of file
//! names, and the ordering of a directory's image entries.
use std::cmp::Ordering;
use crate::extended_formats;
use crate::text;
use vstd::prelude::*;

verus! {

// ───────────────────────── natural ordering: specification ─────────────────────────

/// Outcome of a three-way comparison, turned into std's ordering type at
/// the public boundary.
#[derive(Clone, Copy, Debug, PartialEq, Eq, Structural)]
pub enum NameOrder {
    Less,
    Equal,
    Greater,
}

/// The std ordering value with the same meaning as `o`.
pub open spec fn ordering_of(o: NameOrder) -> Ordering {
    match o {
        NameOrder::Less => Ordering::Less,
        NameOrder::Equal => Ordering::Equal,
        NameOrder::Greater => Ordering::Greater,
    }
}

fn to_ordering(o: NameOrder) -> (r: Ordering)
    ensures
        r == ordering_of(o),
{
    match o {
        NameOrder::Less => Ordering::Less,
        NameOrder::Equal => Ordering::Equal,
        NameOrder::Greater => Ordering::Greater,
    }
}

/// An ASCII decimal digit.
pub open spec fn is_digit(b: u8) -> bool {
    48 <= b && b <= 57
}

/// `b` with an ASCII uppercase letter folded to lowercase.
pub open spec fn lower_byte(b: u8) -> u8 {
    if 65 <= b && b <= 90 {
        (b + 32) as u8
    } else {
        b
    }
}

/// Three-way comparison of two bytes.
pub open spec fn byte_order(a: u8, b: u8) -> NameOrder {
    if a < b {
        NameOrder::Less
    } else if a == b {
        NameOrder::Equal
    } else {
        NameOrder::Greater
    }
}

/// Three-way comparison of two lengths.
pub open spec fn len_order(a: nat, b: nat) -> NameOrder {
    if a < b {
        NameOrder::Less
    } else if a == b {
        NameOrder::Equal
    } else {
        NameOrder::Greater
    }
}

/// `o`, or `p` when `o` is `Equal` (std's `NameOrder::then`).
pub open spec fn then_order(o: NameOrder, p: NameOrder) -> NameOrder {
    if o == NameOrder::Equal {
        p
    } else {
        o
    }
}

/// The reverse of an ordering (std's `NameOrder::reverse`).
pub open spec fn flip(o: NameOrder) -> NameOrder {
    match o {
        NameOrder::Less => NameOrder::Greater,
        NameOrder::Equal => NameOrder::Equal,
        NameOrder::Greater => NameOrder::Less,
    }
}

/// Lexicographic order of byte sequences (std's `Ord` for slices): the
/// first differing byte decides, and a proper prefix comes first.
pub open spec fn lex_order(a: Seq<u8>, b: Seq<u8>) -> NameOrder
    decreases a.len(),
{
    if a.len() == 0 {
        if b.len() == 0 {
            NameOrder::Equal
        } else {
            NameOrder::Less
        }
    } else if b.len() == 0 {
        NameOrder::Greater
    } else {
        then_order(byte_order(a[0], b[0]), lex_order(a.drop_first(), b.drop_first()))
    }
}

/// Number of leading ASCII digits of `s`.
pub open spec fn digit_run_len(s: Seq<u8>) -> nat
    decreases s.len(),
{
    if s.len() > 0 && is_digit(s[0]) {
        1 + digit_run_len(s.drop_first())
    } else {
        0
    }
}

/// Length of the first token of a nonempty `s`: a maximal run of digits,
/// or a single other byte.
pub open spec fn token_len(s: Seq<u8>) -> nat {
    if s.len() > 0 && is_digit(s[0]) {
        digit_run_len(s)
    } else {
        1
    }
}

/// `s` cut into tokens: maximal runs of digits and single other bytes.
pub open spec fn tokens(s: Seq<u8>) -> Seq<Seq<u8>>
    decreases s.len(),
{
    if s.len() == 0 {
        Seq::empty()
    } else {
        let n = token_len(s);
        if 0 < n <= s.len() {
            seq![s.take(n as int)] + tokens(s.skip(n as int))
        } else {
            Seq::empty()
        }
    }
}

/// Number of leading zeroes that a digit run sheds before its value is
/// compared; a run of zeroes keeps its last one.
pub open spec fn zero_prefix_len(a: Seq<u8>) -> nat
    decreases a.len(),
{
    if a.len() > 1 && a[0] == 48 {
        1 + zero_prefix_len(a.drop_first())
    } else {
        0
    }
}

/// A digit run without its leading zeroes.
pub open spec fn trim_zeroes(a: Seq<u8>) -> Seq<u8> {
    a.skip(zero_prefix_len(a) as int)
}

/// Order of two digit runs: by numeric value (fewer significant digits
/// first, then digit by digit), and among equal values the shorter run
/// (fewer leading zeroes) first.
pub open spec fn digit_run_order(a: Seq<u8>, b: Seq<u8>) -> NameOrder {
    then_order(
        then_order(
            len_order(trim_zeroes(a).len(), trim_zeroes(b).len()),
            lex_order(trim_zeroes(a), trim_zeroes(b)),
        ),
        len_order(a.len(), b.len()),
    )
}

/// Order of two tokens: digit runs by value, anything else by its first
/// byte with ASCII case folded.
pub open spec fn token_order(a: Seq<u8>, b: Seq<u8>) -> NameOrder {
    if is_digit(a[0]) && is_digit(b[0]) {
        digit_run_order(a, b)
    } else {
        byte_order(lower_byte(a[0]), lower_byte(b[0]))
    }
}

/// Tokens compared pairwise from the start; the first difference decides,
/// and running out of tokens on either side leaves the order `Equal`.
pub open spec fn token_seq_order(ta: Seq<Seq<u8>>, tb: Seq<Seq<u8>>) -> NameOrder
    decreases ta.len(),
{
    if ta.len() == 0 || tb.len() == 0 {
        NameOrder::Equal
    } else {
        then_order(token_order(ta[0], tb[0]), token_seq_order(ta.drop_first(), tb.drop_first()))
    }
}

/// The natural order of two names given as bytes: token by token, and
/// when no token pair differs, the shorter name first, then plain byte
/// order.
#[verifier::opaque]
pub open spec fn natural_order(l: Seq<u8>, r: Seq<u8>) -> NameOrder {
    then_order(
        token_seq_order(tokens(l), tokens(r)),
        then_order(len_order(l.len(), r.len()), lex_order(l, r)),
    )
}

/// The natural order of two strings, over their UTF-8 bytes.
#[verifier::opaque]
pub open spec fn natural_order_str(l: Seq<char>, r: Seq<char>) -> NameOrder {
    natural_order(vstd::utf8::encode_utf8(l), vstd::utf8::encode_utf8(r))
}


// ───────────────────────── natural ordering: lemmas ─────────────────────────

/// A run of `n` digits ended by a non-digit (or by the end) has length `n`.
proof fn lemma_digit_run_len(s: Seq<u8>, n: int)
    requires
        0 <= n <= s.len(),
        forall|k: int| 0 <= k < n ==> is_digit(#[trigger] s[k]),
        n == s.len() || !is_digit(s[n]),
    ensures
        digit_run_len(s) == n,
    decreases n,
{
    if n > 0 {
        let t = s.drop_first();
        assert forall|k: int| 0 <= k < n - 1 implies is_digit(#[trigger] t[k]) by {
            assert(t[k] == s[k + 1]);
        }
        if n < s.len() {
            assert(t[n - 1] == s[n]);
        }
        lemma_digit_run_len(t, n - 1);
    }
}

/// A run of digits is no longer than the sequence holding it.
proof fn lemma_digit_run_len_bound(s: Seq<u8>)
    ensures
        digit_run_len(s) <= s.len(),
        s.len() > 0 && is_digit(s[0]) ==> digit_run_len(s) >= 1,
    decreases s.len(),
{
    if s.len() > 0 && is_digit(s[0]) {
        lemma_digit_run_len_bound(s.drop_first());
    }
}

/// A nonempty sequence has a first token, which starts with its first byte.
proof fn lemma_first_token(s: Seq<u8>)
    requires
        s.len() > 0,
    ensures
        0 < token_len(s) <= s.len(),
        tokens(s).len() > 0,
        tokens(s)[0] == s.take(token_len(s) as int),
        tokens(s)[0][0] == s[0],
        tokens(s).drop_first() == tokens(s.skip(token_len(s) as int)),
{
    lemma_digit_run_len_bound(s);
    assert(tokens(s).drop_first() =~= tokens(s.skip(token_len(s) as int)));
}

/// The first token of `l.skip(i)` spans `i..e`, and the rest is the
/// tokenization of `l.skip(e)`.
proof fn lemma_tokens_step(l: Seq<u8>, i: int, e: int)
    requires
        0 <= i < e <= l.len(),
        e - i == token_len(l.skip(i)),
    ensures
        tokens(l.skip(i)) == seq![l.subrange(i, e)] + tokens(l.skip(e)),
{
    let s = l.skip(i);
    assert(s.take(e - i) =~= l.subrange(i, e));
    assert(s.skip(e - i) =~= l.skip(e));
}

/// Bytes that agree on a prefix of length `k` compare as their suffixes do.
proof fn lemma_lex_skip(a: Seq<u8>, b: Seq<u8>, k: int)
    requires
        0 <= k <= a.len(),
        k <= b.len(),
        a.take(k) == b.take(k),
    ensures
        lex_order(a, b) == lex_order(a.skip(k), b.skip(k)),
    decreases k,
{
    if k > 0 {
        assert(a[0] == a.take(k)[0]);
        assert(b[0] == b.take(k)[0]);
        assert(a.drop_first().take(k - 1) =~= a.take(k).drop_first());
        assert(b.drop_first().take(k - 1) =~= b.take(k).drop_first());
        lemma_lex_skip(a.drop_first(), b.drop_first(), k - 1);
        assert(a.drop_first().skip(k - 1) =~= a.skip(k));
        assert(b.drop_first().skip(k - 1) =~= b.skip(k));
    } else {
        assert(a.skip(0) =~= a);
        assert(b.skip(0) =~= b);
    }
}

/// Every byte sequence is `Equal` to itself.
pub proof fn lemma_lex_refl(a: Seq<u8>)
    ensures
        lex_order(a, a) == NameOrder::Equal,
    decreases a.len(),
{
    if a.len() > 0 {
        lemma_lex_refl(a.drop_first());
    }
}

/// Swapping the operands of `lex_order` reverses its result.
proof fn lemma_lex_flip(a: Seq<u8>, b: Seq<u8>)
    ensures
        lex_order(a, b) == flip(lex_order(b, a)),
    decreases a.len(),
{
    if a.len() > 0 && b.len() > 0 {
        lemma_lex_flip(a.drop_first(), b.drop_first());
    }
}

/// `lex_order` is `Equal` only on identical sequences.
proof fn lemma_lex_equal(a: Seq<u8>, b: Seq<u8>)
    requires
        lex_order(a, b) == NameOrder::Equal,
    ensures
        a == b,
    decreases a.len(),
{
    if a.len() > 0 {
        lemma_lex_equal(a.drop_first(), b.drop_first());
        assert(a =~= seq![a[0]] + a.drop_first());
        assert(b =~= seq![b[0]] + b.drop_first());
    } else {
        assert(b =~= a);
    }
}

proof fn lemma_token_flip(a: Seq<u8>, b: Seq<u8>)
    requires
        a.len() > 0,
        b.len() > 0,
    ensures
        token_order(a, b) == flip(token_order(b, a)),
{
    lemma_lex_flip(trim_zeroes(a), trim_zeroes(b));
}

proof fn lemma_token_refl(a: Seq<u8>)
    requires
        a.len() > 0,
    ensures
        token_order(a, a) == NameOrder::Equal,
{
    lemma_lex_refl(trim_zeroes(a));
}

/// Tokens are nonempty.
proof fn lemma_tokens_nonempty(s: Seq<u8>)
    ensures
        forall|k: int| 0 <= k < tokens(s).len() ==> #[trigger] tokens(s)[k].len() > 0,
    decreases s.len(),
{
    if s.len() > 0 {
        lemma_first_token(s);
        lemma_tokens_nonempty(s.skip(token_len(s) as int));
        let t = tokens(s);
        assert forall|k: int| 0 <= k < t.len() implies #[trigger] t[k].len() > 0 by {
            if k > 0 {
                assert(t[k] == t.drop_first()[k - 1]);
            }
        }
    }
}

proof fn lemma_token_seq_flip(ta: Seq<Seq<u8>>, tb: Seq<Seq<u8>>)
    requires
        forall|k: int| 0 <= k < ta.len() ==> #[trigger] ta[k].len() > 0,
        forall|k: int| 0 <= k < tb.len() ==> #[trigger] tb[k].len() > 0,
    ensures
        token_seq_order(ta, tb) == flip(token_seq_order(tb, ta)),
    decreases ta.len(),
{
    if ta.len() > 0 && tb.len() > 0 {
        lemma_token_flip(ta[0], tb[0]);
        let ra = ta.drop_first();
        let rb = tb.drop_first();
        assert forall|k: int| 0 <= k < ra.len() implies #[trigger] ra[k].len() > 0 by {
            assert(ra[k] == ta[k + 1]);
        }
        assert forall|k: int| 0 <= k < rb.len() implies #[trigger] rb[k].len() > 0 by {
            assert(rb[k] == tb[k + 1]);
        }
        lemma_token_seq_flip(ra, rb);
    }
}

proof fn lemma_token_seq_refl(ta: Seq<Seq<u8>>)
    requires
        forall|k: int| 0 <= k < ta.len() ==> #[trigger] ta[k].len() > 0,
    ensures
        token_seq_order(ta, ta) == NameOrder::Equal,
    decreases ta.len(),
{
    if ta.len() > 0 {
        lemma_token_refl(ta[0]);
        let ra = ta.drop_first();
        assert forall|k: int| 0 <= k < ra.len() implies #[trigger] ra[k].len() > 0 by {
            assert(ra[k] == ta[k + 1]);
        }
        lemma_token_seq_refl(ra);
    }
}

/// Every name is `Equal` to itself in natural order.
pub proof fn lemma_natural_order_reflexive(a: Seq<u8>)
    ensures
        natural_order(a, a) == NameOrder::Equal,
{
    reveal(natural_order);
    lemma_tokens_nonempty(a);
    lemma_token_seq_refl(tokens(a));
    lemma_lex_refl(a);
}

/// Swapping two names reverses their natural order.
pub proof fn lemma_natural_order_antisymmetric(a: Seq<u8>, b: Seq<u8>)
    ensures
        natural_order(a, b) == flip(natural_order(b, a)),
{
    reveal(natural_order);
    lemma_tokens_nonempty(a);
    lemma_tokens_nonempty(b);
    lemma_token_seq_flip(tokens(a), tokens(b));
    lemma_lex_flip(a, b);
}

/// Natural order calls two names `Equal` only when they are the same bytes.
pub proof fn lemma_natural_order_equal_only_identical(a: Seq<u8>, b: Seq<u8>)
    requires
        natural_order(a, b) == NameOrder::Equal,
    ensures
        a == b,
{
    reveal(natural_order);
    lemma_lex_equal(a, b);
}

/// For strings: `natural_compare` gives `Equal` exactly on equal strings,
/// and swapping its arguments reverses its result.
pub proof fn lemma_natural_order_str_laws(a: Seq<char>, b: Seq<char>)
    ensures
        natural_order_str(a, a) == NameOrder::Equal,
        natural_order_str(a, b) == flip(natural_order_str(b, a)),
        natural_order_str(a, b) == NameOrder::Equal <==> a == b,
{
    reveal(natural_order_str);
    let x = vstd::utf8::encode_utf8(a);
    let y = vstd::utf8::encode_utf8(b);
    lemma_natural_order_reflexive(x);
    lemma_natural_order_antisymmetric(x, y);
    if natural_order(x, y) == NameOrder::Equal {
        lemma_natural_order_equal_only_identical(x, y);
        vstd::utf8::encode_utf8_decode_utf8(a);
        vstd::utf8::encode_utf8_decode_utf8(b);
    }
}

// ───────────────────────── natural ordering: transitivity ─────────────────────────

/// `ac` is what chaining `ab` and `bc` gives when neither is `Greater`:
/// `Equal` when both are, `Less` otherwise.
pub open spec fn chains(ab: NameOrder, bc: NameOrder, ac: NameOrder) -> bool {
    ab != NameOrder::Greater && bc != NameOrder::Greater ==> ac == then_order(ab, bc)
}

/// Lexicographic combination keeps chaining: if two comparisons chain,
/// so does the one that consults the second only on a tie of the first.
proof fn lemma_then_chains(
    p_ab: NameOrder,
    p_bc: NameOrder,
    p_ac: NameOrder,
    q_ab: NameOrder,
    q_bc: NameOrder,
    q_ac: NameOrder,
)
    requires
        chains(p_ab, p_bc, p_ac),
        chains(q_ab, q_bc, q_ac),
    ensures
        chains(then_order(p_ab, q_ab), then_order(p_bc, q_bc), then_order(p_ac, q_ac)),
{
}

proof fn lemma_lex_chains(a: Seq<u8>, b: Seq<u8>, c: Seq<u8>)
    ensures
        chains(lex_order(a, b), lex_order(b, c), lex_order(a, c)),
    decreases a.len(),
{
    if a.len() > 0 && b.len() > 0 && c.len() > 0 {
        lemma_lex_chains(a.drop_first(), b.drop_first(), c.drop_first());
        lemma_then_chains(
            byte_order(a[0], b[0]),
            byte_order(b[0], c[0]),
            byte_order(a[0], c[0]),
            lex_order(a.drop_first(), b.drop_first()),
            lex_order(b.drop_first(), c.drop_first()),
            lex_order(a.drop_first(), c.drop_first()),
        );
    }
}

/// A token as `tokens` cuts it: nonempty, and a single byte unless it is
/// a digit run.
pub open spec fn well_cut(t: Seq<u8>) -> bool {
    t.len() > 0 && (!is_digit(t[0]) ==> t.len() == 1)
}

/// Total length of a sequence of tokens.
pub open spec fn tokens_len(ts: Seq<Seq<u8>>) -> int
    decreases ts.len(),
{
    if ts.len() == 0 {
        0
    } else {
        ts[0].len() + tokens_len(ts.drop_first())
    }
}

/// The tokens of `s` are well cut and together as long as `s`.
proof fn lemma_tokens_cut(s: Seq<u8>)
    ensures
        forall|k: int| 0 <= k < tokens(s).len() ==> well_cut(#[trigger] tokens(s)[k]),
        tokens_len(tokens(s)) == s.len(),
    decreases s.len(),
{
    if s.len() > 0 {
        lemma_first_token(s);
        let n = token_len(s);
        lemma_tokens_cut(s.skip(n as int));
        let t = tokens(s);
        assert forall|k: int| 0 <= k < t.len() implies well_cut(#[trigger] t[k]) by {
            if k > 0 {
                assert(t[k] == t.drop_first()[k - 1]);
            }
        }
    }
}

proof fn lemma_lower_keeps_digit_class(b: u8)
    ensures
        is_digit(b) ==> lower_byte(b) == b,
        !is_digit(b) ==> !is_digit(lower_byte(b)),
{
}

proof fn lemma_token_chains(a: Seq<u8>, b: Seq<u8>, c: Seq<u8>)
    requires
        a.len() > 0,
        b.len() > 0,
        c.len() > 0,
    ensures
        chains(token_order(a, b), token_order(b, c), token_order(a, c)),
{
    lemma_lower_keeps_digit_class(a[0]);
    lemma_lower_keeps_digit_class(b[0]);
    lemma_lower_keeps_digit_class(c[0]);
    if is_digit(a[0]) && is_digit(b[0]) && is_digit(c[0]) {
        let (ta, tb, tc) = (trim_zeroes(a), trim_zeroes(b), trim_zeroes(c));
        lemma_lex_chains(ta, tb, tc);
        lemma_then_chains(
            len_order(ta.len(), tb.len()),
            len_order(tb.len(), tc.len()),
            len_order(ta.len(), tc.len()),
            lex_order(ta, tb),
            lex_order(tb, tc),
            lex_order(ta, tc),
        );
        lemma_then_chains(
            then_order(len_order(ta.len(), tb.len()), lex_order(ta, tb)),
            then_order(len_order(tb.len(), tc.len()), lex_order(tb, tc)),
            then_order(len_order(ta.len(), tc.len()), lex_order(ta, tc)),
            len_order(a.len(), b.len()),
            len_order(b.len(), c.len()),
            len_order(a.len(), c.len()),
        );
    }
}

/// Tokens that compare `Equal` are equally long.
proof fn lemma_equal_tokens_same_len(a: Seq<u8>, b: Seq<u8>)
    requires
        well_cut(a),
        well_cut(b),
        token_order(a, b) == NameOrder::Equal,
    ensures
        a.len() == b.len(),
{
    lemma_lower_keeps_digit_class(a[0]);
    lemma_lower_keeps_digit_class(b[0]);
}

/// Token sequences compared lexicographically, a proper prefix first.
pub open spec fn token_lex(ta: Seq<Seq<u8>>, tb: Seq<Seq<u8>>) -> NameOrder
    decreases ta.len(),
{
    if ta.len() == 0 {
        if tb.len() == 0 {
            NameOrder::Equal
        } else {
            NameOrder::Less
        }
    } else if tb.len() == 0 {
        NameOrder::Greater
    } else {
        then_order(token_order(ta[0], tb[0]), token_lex(ta.drop_first(), tb.drop_first()))
    }
}

/// Every element of `ts` is well cut.
pub open spec fn all_well_cut(ts: Seq<Seq<u8>>) -> bool {
    forall|k: int| 0 <= k < ts.len() ==> well_cut(#[trigger] ts[k])
}

proof fn lemma_all_well_cut_tail(ts: Seq<Seq<u8>>)
    requires
        all_well_cut(ts),
        ts.len() > 0,
    ensures
        all_well_cut(ts.drop_first()),
{
    assert forall|k: int| 0 <= k < ts.drop_first().len() implies well_cut(
        #[trigger] ts.drop_first()[k],
    ) by {
        assert(ts.drop_first()[k] == ts[k + 1]);
    }
}

/// Pairwise token comparison, a tie broken by the number of tokens, is
/// `token_lex`; and on a pairwise tie the total lengths compare as the
/// numbers of tokens do.
proof fn lemma_token_seq_lex(ta: Seq<Seq<u8>>, tb: Seq<Seq<u8>>)
    requires
        all_well_cut(ta),
        all_well_cut(tb),
    ensures
        then_order(token_seq_order(ta, tb), len_order(ta.len(), tb.len())) == token_lex(ta, tb),
        token_seq_order(ta, tb) == NameOrder::Equal ==> len_order(
            tokens_len(ta) as nat,
            tokens_len(tb) as nat,
        ) == len_order(ta.len(), tb.len()),
        tokens_len(ta) >= 0,
        tokens_len(tb) >= 0,
        tokens_len(ta) == 0 <==> ta.len() == 0,
        tokens_len(tb) == 0 <==> tb.len() == 0,
    decreases ta.len() + tb.len(),
{
    if ta.len() > 0 {
        lemma_all_well_cut_tail(ta);
    }
    if tb.len() > 0 {
        lemma_all_well_cut_tail(tb);
    }
    if ta.len() > 0 && tb.len() > 0 {
        lemma_token_seq_lex(ta.drop_first(), tb.drop_first());
        if token_order(ta[0], tb[0]) == NameOrder::Equal {
            lemma_equal_tokens_same_len(ta[0], tb[0]);
        }
    } else if ta.len() > 0 {
        lemma_token_seq_lex(ta.drop_first(), tb);
    } else if tb.len() > 0 {
        lemma_token_seq_lex(ta, tb.drop_first());
    }
}

proof fn lemma_token_lex_chains(ta: Seq<Seq<u8>>, tb: Seq<Seq<u8>>, tc: Seq<Seq<u8>>)
    requires
        all_well_cut(ta),
        all_well_cut(tb),
        all_well_cut(tc),
    ensures
        chains(token_lex(ta, tb), token_lex(tb, tc), token_lex(ta, tc)),
    decreases ta.len(),
{
    if ta.len() > 0 && tb.len() > 0 && tc.len() > 0 {
        lemma_all_well_cut_tail(ta);
        lemma_all_well_cut_tail(tb);
        lemma_all_well_cut_tail(tc);
        lemma_token_lex_chains(ta.drop_first(), tb.drop_first(), tc.drop_first());
        lemma_token_chains(ta[0], tb[0], tc[0]);
        lemma_then_chains(
            token_order(ta[0], tb[0]),
            token_order(tb[0], tc[0]),
            token_order(ta[0], tc[0]),
            token_lex(ta.drop_first(), tb.drop_first()),
            token_lex(tb.drop_first(), tc.drop_first()),
            token_lex(ta.drop_first(), tc.drop_first()),
        );
    }
}

/// Natural order as a lexicographic combination: token sequences with a
/// proper prefix first, then length, then bytes.
proof fn lemma_natural_order_as_lex(x: Seq<u8>, y: Seq<u8>)
    ensures
        natural_order(x, y) == then_order(
            token_lex(tokens(x), tokens(y)),
            then_order(len_order(x.len(), y.len()), lex_order(x, y)),
        ),
{
    reveal(natural_order);
    lemma_tokens_cut(x);
    lemma_tokens_cut(y);
    lemma_token_seq_lex(tokens(x), tokens(y));
}

/// Natural order is transitive: a name no later than a second, itself no
/// later than a third, is no later than the third, and strictly earlier
/// when either step is strict.
pub proof fn lemma_natural_order_transitive(a: Seq<u8>, b: Seq<u8>, c: Seq<u8>)
    requires
        natural_order(a, b) != NameOrder::Greater,
        natural_order(b, c) != NameOrder::Greater,
    ensures
        natural_order(a, c) != NameOrder::Greater,
        natural_order(a, b) == NameOrder::Less || natural_order(b, c) == NameOrder::Less
            ==> natural_order(a, c) == NameOrder::Less,
{
    lemma_natural_order_as_lex(a, b);
    lemma_natural_order_as_lex(b, c);
    lemma_natural_order_as_lex(a, c);
    lemma_tokens_cut(a);
    lemma_tokens_cut(b);
    lemma_tokens_cut(c);
    lemma_token_lex_chains(tokens(a), tokens(b), tokens(c));
    lemma_lex_chains(a, b, c);
    lemma_then_chains(
        len_order(a.len(), b.len()),
        len_order(b.len(), c.len()),
        len_order(a.len(), c.len()),
        lex_order(a, b),
        lex_order(b, c),
        lex_order(a, c),
    );
    lemma_then_chains(
        token_lex(tokens(a), tokens(b)),
        token_lex(tokens(b), tokens(c)),
        token_lex(tokens(a), tokens(c)),
        then_order(len_order(a.len(), b.len()), lex_order(a, b)),
        then_order(len_order(b.len(), c.len()), lex_order(b, c)),
        then_order(len_order(a.len(), c.len()), lex_order(a, c)),
    );
}

/// Transitivity of `natural_compare`'s order on strings.
pub proof fn lemma_natural_order_str_transitive(a: Seq<char>, b: Seq<char>, c: Seq<char>)
    requires
        natural_order_str(a, b) != NameOrder::Greater,
        natural_order_str(b, c) != NameOrder::Greater,
    ensures
        natural_order_str(a, c) != NameOrder::Greater,
        natural_order_str(a, b) == NameOrder::Less || natural_order_str(b, c) == NameOrder::Less
            ==> natural_order_str(a, c) == NameOrder::Less,
{
    reveal(natural_order_str);
    lemma_natural_order_transitive(
        vstd::utf8::encode_utf8(a),
        vstd::utf8::encode_utf8(b),
        vstd::utf8::encode_utf8(c),
    );
}

// ───────────────────────── natural ordering: numeric value ─────────────────────────

/// 10 to the power `n`.
pub open spec fn pow10(n: nat) -> nat
    decreases n,
{
    if n == 0 {
        1
    } else {
        10 * pow10((n - 1) as nat)
    }
}

/// Every byte of `s` is an ASCII digit.
pub open spec fn all_digits(s: Seq<u8>) -> bool {
    forall|k: int| 0 <= k < s.len() ==> is_digit(#[trigger] s[k])
}

/// The number that the decimal digits `s` write, leading zeroes included.
pub open spec fn digits_number(s: Seq<u8>) -> nat
    decreases s.len(),
{
    if s.len() == 0 {
        0
    } else {
        ((s[0] - 48) as nat) * pow10((s.len() - 1) as nat) + digits_number(s.drop_first())
    }
}

proof fn lemma_pow10_monotone(a: nat, b: nat)
    requires
        a <= b,
    ensures
        1 <= pow10(a) <= pow10(b),
    decreases b,
{
    if b > 0 {
        if a < b {
            lemma_pow10_monotone(a, (b - 1) as nat);
        } else {
            lemma_pow10_monotone(0, (b - 1) as nat);
        }
    }
}

proof fn lemma_all_digits_tail(s: Seq<u8>)
    requires
        all_digits(s),
        s.len() > 0,
    ensures
        all_digits(s.drop_first()),
        is_digit(s[0]),
{
    assert forall|k: int| 0 <= k < s.drop_first().len() implies is_digit(
        #[trigger] s.drop_first()[k],
    ) by {
        assert(s.drop_first()[k] == s[k + 1]);
    }
}

/// `n` digits write a number below 10^n; without a leading zero, at least
/// 10^(n-1).
proof fn lemma_number_bounds(s: Seq<u8>)
    requires
        all_digits(s),
    ensures
        digits_number(s) < pow10(s.len()),
        s.len() > 0 && s[0] != 48 ==> digits_number(s) >= pow10((s.len() - 1) as nat),
    decreases s.len(),
{
    if s.len() > 0 {
        lemma_all_digits_tail(s);
        lemma_number_bounds(s.drop_first());
        let p = pow10((s.len() - 1) as nat);
        let d = (s[0] - 48) as nat;
        let t = digits_number(s.drop_first());
        assert(d <= 9);
        assert(d * p + t < 10 * p) by (nonlinear_arith)
            requires
                d <= 9,
                t < p,
        ;
        if s[0] != 48 {
            assert(d * p >= p) by (nonlinear_arith)
                requires
                    d >= 1,
        ;
        }
    }
}

/// Shedding leading zeroes keeps the number, and leaves a run that starts
/// with a nonzero digit unless it is a single digit.
proof fn lemma_trim_keeps_number(s: Seq<u8>)
    requires
        all_digits(s),
        s.len() > 0,
    ensures
        digits_number(trim_zeroes(s)) == digits_number(s),
        all_digits(trim_zeroes(s)),
        trim_zeroes(s).len() > 0,
        trim_zeroes(s)[0] != 48 || trim_zeroes(s).len() == 1,
        zero_prefix_len(s) < s.len(),
    decreases s.len(),
{
    lemma_all_digits_tail(s);
    if s.len() > 1 && s[0] == 48 {
        let t = s.drop_first();
        lemma_trim_keeps_number(t);
        let z = zero_prefix_len(t);
        assert(zero_prefix_len(s) == 1 + z);
        assert forall|k: int| 0 <= k < t.len() - z implies #[trigger] s.skip((1 + z) as int)[k]
            == t.skip(z as int)[k] by {
            assert(s[1 + z + k] == t[z + k]);
        }
        assert(s.skip((1 + z) as int) =~= t.skip(z as int));
        assert(trim_zeroes(s) =~= trim_zeroes(t));
        let d = (s[0] - 48) as nat;
        let p = pow10((s.len() - 1) as nat);
        assert(d == 0);
        assert(d * p == 0) by (nonlinear_arith)
            requires
                d == 0,
        ;
        assert(digits_number(s) == d * p + digits_number(t));
    } else {
        assert(trim_zeroes(s) =~= s);
    }
}

/// Digit strings of one length compare byte by byte as their numbers do.
proof fn lemma_same_length_numbers(a: Seq<u8>, b: Seq<u8>)
    requires
        all_digits(a),
        all_digits(b),
        a.len() == b.len(),
        digits_number(a) < digits_number(b),
    ensures
        lex_order(a, b) == NameOrder::Less,
    decreases a.len(),
{
    lemma_all_digits_tail(a);
    lemma_all_digits_tail(b);
    let p = pow10((a.len() - 1) as nat);
    let da = (a[0] - 48) as nat;
    let db = (b[0] - 48) as nat;
    let ta = digits_number(a.drop_first());
    let tb = digits_number(b.drop_first());
    lemma_number_bounds(a.drop_first());
    lemma_number_bounds(b.drop_first());
    if a[0] == b[0] {
        lemma_same_length_numbers(a.drop_first(), b.drop_first());
    } else if a[0] > b[0] {
        assert(da * p + ta >= db * p + tb) by (nonlinear_arith)
            requires
                da >= db + 1,
                tb < p,
                ta >= 0,
        ;
    }
}

/// Two digit runs order by the numbers they write: the smaller number
/// comes first, whatever leading zeroes either run has.
pub proof fn lemma_digit_runs_order_by_number(a: Seq<u8>, b: Seq<u8>)
    requires
        all_digits(a),
        all_digits(b),
        a.len() > 0,
        b.len() > 0,
        digits_number(a) < digits_number(b),
    ensures
        digit_run_order(a, b) == NameOrder::Less,
{
    lemma_trim_keeps_number(a);
    lemma_trim_keeps_number(b);
    let ta = trim_zeroes(a);
    let tb = trim_zeroes(b);
    lemma_number_bounds(ta);
    lemma_number_bounds(tb);
    if ta.len() > tb.len() {
        lemma_pow10_monotone(tb.len(), (ta.len() - 1) as nat);
        assert(ta[0] != 48);
    } else if ta.len() == tb.len() {
        lemma_same_length_numbers(ta, tb);
    }
}

/// A nonempty digit string is a single token.
proof fn lemma_digits_one_token(s: Seq<u8>)
    requires
        all_digits(s),
        s.len() > 0,
    ensures
        tokens(s) == seq![s],
{
    assert forall|k: int| 0 <= k < s.len() implies is_digit(#[trigger] s[k]) by {}
    lemma_digit_run_len(s, s.len() as int);
    lemma_first_token(s);
    assert(token_len(s) == s.len());
    assert(s.take(s.len() as int) =~= s);
    let rest = s.skip(s.len() as int);
    assert(rest =~= Seq::<u8>::empty());
    assert(tokens(rest) == Seq::<Seq<u8>>::empty());
    assert(tokens(s) == seq![s.take(s.len() as int)] + tokens(rest));
    assert(tokens(s) =~= seq![s]);
}

/// Names made of digits alone order by the numbers they write: the smaller
/// number comes first, whatever leading zeroes either has.
pub proof fn lemma_digit_names_order_by_number(l: Seq<u8>, r: Seq<u8>)
    requires
        all_digits(l),
        all_digits(r),
        l.len() > 0,
        r.len() > 0,
        digits_number(l) < digits_number(r),
    ensures
        natural_order(l, r) == NameOrder::Less,
{
    reveal(natural_order);
    lemma_digits_one_token(l);
    lemma_digits_one_token(r);
    lemma_digit_runs_order_by_number(l, r);
    let tl = seq![l];
    let tr = seq![r];
    assert(tl.drop_first() =~= Seq::<Seq<u8>>::empty());
    assert(tr.drop_first() =~= Seq::<Seq<u8>>::empty());
}

/// A common first character that is not a digit leaves the natural order
/// of two names as it is.
pub proof fn lemma_common_letter_prefix(c: u8, l: Seq<u8>, r: Seq<u8>)
    requires
        !is_digit(c),
    ensures
        natural_order(seq![c] + l, seq![c] + r) == natural_order(l, r),
{
    reveal(natural_order);
    let x = seq![c] + l;
    let y = seq![c] + r;
    assert(token_len(x) == 1);
    assert(x.take(1) =~= seq![c]);
    assert(y.take(1) =~= seq![c]);
    assert(x.skip(1) =~= l);
    assert(y.skip(1) =~= r);
    assert(tokens(x) =~= seq![seq![c]] + tokens(l));
    assert(tokens(y) =~= seq![seq![c]] + tokens(r));
    assert((seq![seq![c]] + tokens(l)).drop_first() =~= tokens(l));
    assert((seq![seq![c]] + tokens(r)).drop_first() =~= tokens(r));
    assert(x.drop_first() =~= l);
    assert(y.drop_first() =~= r);
    assert(token_order(seq![c], seq![c]) == NameOrder::Equal);
}

/// A digit run followed by the end or by a non-digit is the first token,
/// and the rest is cut as it would be alone.
proof fn lemma_run_then_rest(a: Seq<u8>, q: Seq<u8>)
    requires
        all_digits(a),
        a.len() > 0,
        q.len() == 0 || !is_digit(q[0]),
    ensures
        tokens(a + q) == seq![a] + tokens(q),
{
    let s = a + q;
    assert forall|k: int| 0 <= k < a.len() implies is_digit(#[trigger] s[k]) by {
        assert(s[k] == a[k]);
    }
    if q.len() > 0 {
        assert(s[a.len() as int] == q[0]);
    }
    lemma_digit_run_len(s, a.len() as int);
    lemma_first_token(s);
    assert(s.take(a.len() as int) =~= a);
    assert(s.skip(a.len() as int) =~= q);
    assert(tokens(s) =~= seq![a] + tokens(q));
}

/// Two names that differ only in one digit run, with no digit before it,
/// order by the numbers the two runs write: the smaller number first,
/// whatever leading zeroes either run has.
pub proof fn lemma_names_differing_in_one_run(p: Seq<u8>, a: Seq<u8>, b: Seq<u8>, q: Seq<u8>)
    requires
        forall|k: int| 0 <= k < p.len() ==> !is_digit(#[trigger] p[k]),
        all_digits(a),
        all_digits(b),
        a.len() > 0,
        b.len() > 0,
        q.len() == 0 || !is_digit(q[0]),
        digits_number(a) < digits_number(b),
    ensures
        natural_order(p + a + q, p + b + q) == NameOrder::Less,
    decreases p.len(),
{
    if p.len() == 0 {
        assert(p + a + q =~= a + q);
        assert(p + b + q =~= b + q);
        lemma_run_then_rest(a, q);
        lemma_run_then_rest(b, q);
        lemma_digit_runs_order_by_number(a, b);
        let ta = seq![a] + tokens(q);
        let tb = seq![b] + tokens(q);
        assert(ta[0] == a);
        assert(tb[0] == b);
        lemma_all_digits_tail(a);
        lemma_all_digits_tail(b);
        assert(token_seq_order(ta, tb) == NameOrder::Less);
        reveal(natural_order);
    } else {
        let c = p[0];
        let rest = p.drop_first();
        assert forall|k: int| 0 <= k < rest.len() implies !is_digit(#[trigger] rest[k]) by {
            assert(rest[k] == p[k + 1]);
        }
        lemma_names_differing_in_one_run(rest, a, b, q);
        assert(p + a + q =~= seq![c] + (rest + a + q));
        assert(p + b + q =~= seq![c] + (rest + b + q));
        lemma_common_letter_prefix(c, rest + a + q, rest + b + q);
    }
}

// ───────────────────────── natural ordering: implementation ─────────────────────────

fn lower(b: u8) -> (r: u8)
    ensures
        r == lower_byte(b),
{
    if 65 <= b && b <= 90 {
        b + 32
    } else {
        b
    }
}

fn order_bytes(a: u8, b: u8) -> (r: NameOrder)
    ensures
        r == byte_order(a, b),
{
    if a < b {
        NameOrder::Less
    } else if a == b {
        NameOrder::Equal
    } else {
        NameOrder::Greater
    }
}

fn order_lens(a: usize, b: usize) -> (r: NameOrder)
    ensures
        r == len_order(a as nat, b as nat),
{
    if a < b {
        NameOrder::Less
    } else if a == b {
        NameOrder::Equal
    } else {
        NameOrder::Greater
    }
}

/// Lexicographic order of `l[ls..ls+n]` and `r[rs..rs+n]`.
fn compare_ranges(l: &[u8], ls: usize, r: &[u8], rs: usize, n: usize) -> (o: NameOrder)
    requires
        ls + n <= l@.len(),
        rs + n <= r@.len(),
    ensures
        o == lex_order(l@.subrange(ls as int, ls + n), r@.subrange(rs as int, rs + n)),
{
    let ghost a = l@.subrange(ls as int, ls + n);
    let ghost b = r@.subrange(rs as int, rs + n);
    let mut k: usize = 0;
    while k < n
        invariant
            ls + n <= l@.len(),
            rs + n <= r@.len(),
            r@.len() == r.len(),
            l@.len() == l.len(),
            a == l@.subrange(ls as int, ls + n),
            b == r@.subrange(rs as int, rs + n),
            k <= n,
            a.take(k as int) == b.take(k as int),
        decreases n - k,
    {
        let x = l[ls + k];
        let y = r[rs + k];
        if x != y {
            proof {
                lemma_lex_skip(a, b, k as int);
                assert(a.skip(k as int)[0] == x);
                assert(b.skip(k as int)[0] == y);
            }
            return order_bytes(x, y);
        }
        proof {
            assert(a.take(k + 1) =~= a.take(k as int).push(x));
            assert(b.take(k + 1) =~= b.take(k as int).push(y));
        }
        k += 1;
    }
    proof {
        assert(a =~= a.take(n as int));
        assert(b =~= b.take(n as int));
        lemma_lex_refl(a);
    }
    NameOrder::Equal
}

/// First index at or after `start` that does not hold a digit.
fn digit_end(value: &[u8], start: usize) -> (e: usize)
    requires
        start <= value@.len(),
    ensures
        e == start + digit_run_len(value@.skip(start as int)),
        e <= value@.len(),
        forall|k: int| start <= k < e ==> is_digit(#[trigger] value@[k]),
{
    let mut e = start;
    while e < value.len() && 48 <= value[e] && value[e] <= 57
        invariant
            start <= e <= value@.len(),
            forall|k: int| start <= k < e ==> is_digit(#[trigger] value@[k]),
        decreases value@.len() - e,
    {
        e += 1;
    }
    proof {
        let s = value@.skip(start as int);
        assert forall|k: int| 0 <= k < e - start implies is_digit(#[trigger] s[k]) by {
            assert(s[k] == value@[start + k]);
        }
        if e < value@.len() {
            assert(s[e - start] == value@[e as int]);
        }
        lemma_digit_run_len(s, e - start);
    }
    e
}

/// Start of the significant digits of the run `v[s..e]`: leading zeroes are
/// skipped, but a run of zeroes keeps its last one.
fn zero_trim_start(v: &[u8], s: usize, e: usize) -> (t: usize)
    requires
        s < e <= v@.len(),
    ensures
        s <= t < e,
        t - s == zero_prefix_len(v@.subrange(s as int, e as int)),
{
    let mut t = s;
    while t + 1 < e && v[t] == 48
        invariant
            s <= t < e <= v@.len(),
            zero_prefix_len(v@.subrange(s as int, e as int)) == (t - s) + zero_prefix_len(
                v@.subrange(t as int, e as int),
            ),
        decreases e - t,
    {
        proof {
            assert(v@.subrange(t as int, e as int).drop_first() =~= v@.subrange(t + 1, e as int));
        }
        t += 1;
    }
    t
}

/// Order of the digit runs `l[ls..le]` and `r[rs..re]`.
fn compare_digit_runs(l: &[u8], ls: usize, le: usize, r: &[u8], rs: usize, re: usize) -> (o:
    NameOrder)
    requires
        ls < le <= l@.len(),
        rs < re <= r@.len(),
    ensures
        o == digit_run_order(l@.subrange(ls as int, le as int), r@.subrange(rs as int, re as int)),
{
    let ghost a = l@.subrange(ls as int, le as int);
    let ghost b = r@.subrange(rs as int, re as int);
    let lt = zero_trim_start(l, ls, le);
    let rt = zero_trim_start(r, rs, re);
    proof {
        assert(trim_zeroes(a) =~= l@.subrange(lt as int, le as int));
        assert(trim_zeroes(b) =~= r@.subrange(rt as int, re as int));
    }
    let by_digits = order_lens(le - lt, re - rt);
    if by_digits != NameOrder::Equal {
        return by_digits;
    }
    let by_value = compare_ranges(l, lt, r, rt, le - lt);
    if by_value != NameOrder::Equal {
        return by_value;
    }
    order_lens(le - ls, re - rs)
}

/// Compares two file names in natural order: runs of ASCII digits compare
/// by numeric value (a run with more leading zeroes after an equal value),
/// other bytes compare with ASCII case folded, and names that tie this way
/// are ordered by byte length and then by plain byte order.
pub fn natural_compare(left: &str, right: &str) -> (o: Ordering)
    ensures
        o == ordering_of(natural_order_str(left@, right@)),
{
    reveal(natural_order_str);
    to_ordering(natural_order_bytes(left.as_bytes(), right.as_bytes()))
}

/// `natural_order` computed on two byte slices.
fn natural_order_bytes(l: &[u8], r: &[u8]) -> (o: NameOrder)
    ensures
        o == natural_order(l@, r@),
{
    reveal(natural_order);
    let ghost tail = then_order(len_order(l@.len(), r@.len()), lex_order(l@, r@));
    let mut i: usize = 0;
    let mut j: usize = 0;
    proof {
        assert(l@.skip(0) =~= l@);
        assert(r@.skip(0) =~= r@);
    }
    while i < l.len() && j < r.len()
        invariant
            tail == then_order(len_order(l@.len(), r@.len()), lex_order(l@, r@)),
            i <= l@.len(),
            j <= r@.len(),
            natural_order(l@, r@) == then_order(
                token_seq_order(tokens(l@.skip(i as int)), tokens(r@.skip(j as int))),
                tail,
            ),
        decreases (l@.len() - i) + (r@.len() - j),
    {
        let ghost ta = tokens(l@.skip(i as int));
        let ghost tb = tokens(r@.skip(j as int));
        if 48 <= l[i] && l[i] <= 57 && 48 <= r[j] && r[j] <= 57 {
            let le = digit_end(l, i);
            let re = digit_end(r, j);
            proof {
                lemma_tokens_step(l@, i as int, le as int);
                lemma_tokens_step(r@, j as int, re as int);
                assert(ta[0] == l@.subrange(i as int, le as int));
                assert(tb[0] == r@.subrange(j as int, re as int));
                assert(ta.drop_first() =~= tokens(l@.skip(le as int)));
                assert(tb.drop_first() =~= tokens(r@.skip(re as int)));
            }
            let o = compare_digit_runs(l, i, le, r, j, re);
            if o != NameOrder::Equal {
                return o;
            }
            i = le;
            j = re;
        } else {
            let o = order_bytes(lower(l[i]), lower(r[j]));
            if o != NameOrder::Equal {
                proof {
                    lemma_first_token(l@.skip(i as int));
                    lemma_first_token(r@.skip(j as int));
                }
                return o;
            }
            proof {
                assert(!is_digit(l@[i as int]) && !is_digit(r@[j as int]));
                lemma_tokens_step(l@, i as int, i + 1);
                lemma_tokens_step(r@, j as int, j + 1);
                assert(ta.drop_first() =~= tokens(l@.skip(i + 1)));
                assert(tb.drop_first() =~= tokens(r@.skip(j + 1)));
            }
            i += 1;
            j += 1;
        }
    }
    proof {
        if i == l@.len() {
            assert(l@.skip(i as int).len() == 0);
        } else {
            assert(r@.skip(j as int).len() == 0);
        }
    }
    let by_len = order_lens(l.len(), r.len());
    if by_len != NameOrder::Equal {
        return by_len;
    }
    proof {
        assert(l@.subrange(0, l@.len() as int) =~= l@);
        assert(r@.subrange(0, r@.len() as int) =~= r@);
    }
    compare_ranges(l, 0, r, 0, l.len())
}


// ───────────────────────── supported images ─────────────────────────

/// The extensions that the viewer opens, in lowercase.
pub open spec fn image_extensions() -> Seq<Seq<char>> {
    seq!["jpg"@, "jpeg"@, "png"@, "webp"@, "gif"@, "bmp"@, "svg"@]
}

/// Whether a path names a supported image: its extension, with ASCII case
/// folded, is one of `image_extensions`.
pub open spec fn is_supported_path(p: Seq<char>) -> bool {
    match text::path_extension(p) {
        Some(e) => image_extensions().contains(text::ascii_lower(e)),
        None => false,
    }
}

/// A supported image is never one that only the system decoder reads.
pub proof fn lemma_supported_images_are_not_system_decoded(p: Seq<char>)
    ensures
        is_supported_path(p) ==> !extended_formats::is_system_decoded_path(p),
{
    if is_supported_path(p) {
        reveal_strlit("jpg");
        reveal_strlit("jpeg");
        reveal_strlit("png");
        reveal_strlit("webp");
        reveal_strlit("gif");
        reveal_strlit("bmp");
        reveal_strlit("svg");
        reveal_strlit("tif");
        reveal_strlit("tiff");
        reveal_strlit("heic");
        reveal_strlit("heif");
        reveal_strlit("dng");
        reveal_strlit("cr2");
        reveal_strlit("cr3");
        reveal_strlit("nef");
        reveal_strlit("arw");
        reveal_strlit("raf");
        reveal_strlit("orf");
        reveal_strlit("rw2");
        let e = extended_formats::lower_extension(p);
        let imgs = image_extensions();
        let k = choose|k: int| 0 <= k < imgs.len() && imgs[k] == e;
        let tiffs = extended_formats::tiff_extensions();
        let sys = extended_formats::system_extensions();
        assert forall|j: int| 0 <= j < tiffs.len() implies tiffs[j] != e by {
            assert(imgs[k] != tiffs[j] || imgs[k].len() != tiffs[j].len() || imgs[k][0] != tiffs[j][0]
                || imgs[k][1] != tiffs[j][1] || imgs[k][2] != tiffs[j][2]);
        }
        assert forall|j: int| 0 <= j < sys.len() implies sys[j] != e by {
            assert(imgs[k] != sys[j] || imgs[k].len() != sys[j].len() || imgs[k][0] != sys[j][0]
                || imgs[k][1] != sys[j][1] || imgs[k][2] != sys[j][2]);
        }
    }
}

/// An extension without uppercase ASCII letters is its own ASCII lowercase.
proof fn lemma_ascii_lower_fixed(s: Seq<char>)
    requires
        forall|k: int| 0 <= k < s.len() ==> !('A' <= #[trigger] s[k] && s[k] <= 'Z'),
    ensures
        text::ascii_lower(s) == s,
{
    assert(text::ascii_lower(s) =~= s);
}

/// Whether `ext`, with ASCII case folded, is one of the supported image
/// extensions.
pub fn is_supported_extension(ext: &str) -> (r: bool)
    ensures
        r == image_extensions().contains(text::ascii_lower(ext@)),
{
    proof {
        reveal_strlit("jpg");
        reveal_strlit("jpeg");
        reveal_strlit("png");
        reveal_strlit("webp");
        reveal_strlit("gif");
        reveal_strlit("bmp");
        reveal_strlit("svg");
        lemma_ascii_lower_fixed("jpg"@);
        lemma_ascii_lower_fixed("jpeg"@);
        lemma_ascii_lower_fixed("png"@);
        lemma_ascii_lower_fixed("webp"@);
        lemma_ascii_lower_fixed("gif"@);
        lemma_ascii_lower_fixed("bmp"@);
        lemma_ascii_lower_fixed("svg"@);
    }
    let ghost list = image_extensions();
    let r = text::eq_ignore_ascii_case(ext, "jpg") || text::eq_ignore_ascii_case(ext, "jpeg")
        || text::eq_ignore_ascii_case(ext, "png") || text::eq_ignore_ascii_case(ext, "webp")
        || text::eq_ignore_ascii_case(ext, "gif") || text::eq_ignore_ascii_case(ext, "bmp")
        || text::eq_ignore_ascii_case(ext, "svg");
    proof {
        let e = text::ascii_lower(ext@);
        if list.contains(e) {
            let k = choose|k: int| 0 <= k < list.len() && list[k] == e;
            assert(0 <= k < 7);
        }
        assert(list[0] == "jpg"@);
        assert(list[1] == "jpeg"@);
        assert(list[2] == "png"@);
        assert(list[3] == "webp"@);
        assert(list[4] == "gif"@);
        assert(list[5] == "bmp"@);
        assert(list[6] == "svg"@);
    }
    r
}

/// Whether the path's extension names a supported image format (ASCII case
/// is ignored; a path without an extension is not an image).
pub fn is_supported_image(path: &str) -> (r: bool)
    ensures
        r == is_supported_path(path@),
{
    match text::extension_of(path) {
        Some(ext) => is_supported_extension(ext.as_str()),
        None => false,
    }
}

// ───────────────────────── directory entries ─────────────────────────

/// An image file found in a directory.
#[derive(Debug, PartialEq, Eq)]
pub struct ImageEntry {
    /// The path, absolute or as the caller gave it.
    pub path: String,
    /// The file name.
    pub name: String,
    /// Size in bytes.
    pub size: u64,
    /// Last modification, in milliseconds since the Unix epoch.
    pub modified: u64,
}

/// The result of scanning one directory level.
#[derive(Debug, PartialEq, Eq)]
pub struct DirectoryScan {
    /// The directory that was scanned.
    pub directory: String,
    /// The images found in it, in natural name order.
    pub entries: Vec<ImageEntry>,
}

/// Whether an entry's path names a supported image.
pub open spec fn entry_is_supported() -> spec_fn(ImageEntry) -> bool {
    |e: ImageEntry| is_supported_path(e.path@)
}

/// Whether an entry is named `n`.
pub open spec fn entry_has_name(n: Seq<char>) -> spec_fn(ImageEntry) -> bool {
    |e: ImageEntry| e.name@ == n
}

/// The entries whose path names a supported image, in their given order.
pub open spec fn supported_entries(s: Seq<ImageEntry>) -> Seq<ImageEntry> {
    s.filter(entry_is_supported())
}

/// The entries named `n`, in their given order.
pub open spec fn entries_named(s: Seq<ImageEntry>, n: Seq<char>) -> Seq<ImageEntry> {
    s.filter(entry_has_name(n))
}

/// Each entry's name is no later, in natural order, than the next one's.
#[verifier::opaque]
pub open spec fn sorted_by_name(s: Seq<ImageEntry>) -> bool {
    forall|i: int|
        0 <= i < s.len() - 1 ==> natural_order_str(#[trigger] s[i].name@, s[i + 1].name@)
            != NameOrder::Greater
}

/// In a sequence sorted by name, every entry is no later than any entry
/// after it, not only than the next one.
pub proof fn lemma_sorted_pairwise(s: Seq<ImageEntry>, i: int, j: int)
    requires
        sorted_by_name(s),
        0 <= i < j < s.len(),
    ensures
        natural_order_str(s[i].name@, s[j].name@) != NameOrder::Greater,
    decreases j - i,
{
    reveal(sorted_by_name);
    if j > i + 1 {
        lemma_sorted_pairwise(s, i + 1, j);
        assert(natural_order_str(s[i].name@, s[i + 1].name@) != NameOrder::Greater);
        lemma_natural_order_str_transitive(s[i].name@, s[i + 1].name@, s[j].name@);
    } else {
        assert(natural_order_str(s[i].name@, s[i + 1].name@) != NameOrder::Greater);
    }
}

/// Every entry's name is no later, in natural order, than the name of any
/// entry after it.
#[verifier::opaque]
pub open spec fn names_in_order(s: Seq<ImageEntry>) -> bool {
    forall|i: int, j: int|
        0 <= i < j < s.len() ==> natural_order_str(#[trigger] s[i].name@, #[trigger] s[j].name@)
            != NameOrder::Greater
}

proof fn lemma_sorted_all_pairs(s: Seq<ImageEntry>)
    requires
        sorted_by_name(s),
    ensures
        names_in_order(s),
{
    reveal(names_in_order);
    assert forall|i: int, j: int| 0 <= i < j < s.len() implies natural_order_str(
        #[trigger] s[i].name@,
        #[trigger] s[j].name@,
    ) != NameOrder::Greater by {
        lemma_sorted_pairwise(s, i, j);
    }
}

/// Inserting `x` at `k`, ahead of every entry that it does not follow,
/// keeps the sequence sorted.
#[verifier::rlimit(50)]
proof fn lemma_insert_sorted(out: Seq<ImageEntry>, x: ImageEntry, k: int)
    requires
        0 <= k <= out.len(),
        sorted_by_name(out),
        forall|j: int|
            0 <= j < k ==> natural_order_str(x.name@, #[trigger] out[j].name@)
                == NameOrder::Greater,
        k < out.len() ==> natural_order_str(x.name@, out[k].name@) != NameOrder::Greater,
    ensures
        sorted_by_name(out.insert(k, x)),
{
    reveal(sorted_by_name);
    let o2 = out.insert(k, x);
    assert forall|i: int| 0 <= i < o2.len() - 1 implies natural_order_str(
        #[trigger] o2[i].name@,
        o2[i + 1].name@,
    ) != NameOrder::Greater by {
        if i == k - 1 {
            lemma_natural_order_str_laws(o2[i].name@, x.name@);
        } else if i < k - 1 {
            assert(o2[i] == out[i] && o2[i + 1] == out[i + 1]);
        } else if i == k {
        } else {
            assert(o2[i] == out[i - 1] && o2[i + 1] == out[i]);
        }
    }
}

/// Inserting `x` ahead of every entry that it does not follow puts it first
/// among the entries of its name and leaves the other names' entries alone.
proof fn lemma_insert_named(out: Seq<ImageEntry>, x: ImageEntry, k: int, n: Seq<char>)
    requires
        0 <= k <= out.len(),
        forall|j: int|
            0 <= j < k ==> natural_order_str(x.name@, #[trigger] out[j].name@)
                == NameOrder::Greater,
    ensures
        entries_named(out.insert(k, x), n) == if x.name@ == n {
            seq![x] + entries_named(out, n)
        } else {
            entries_named(out, n)
        },
{
    let o2 = out.insert(k, x);
    assert(o2 =~= out.take(k) + (seq![x] + out.skip(k)));
    assert(out =~= out.take(k) + out.skip(k));
    let p = entry_has_name(n);
    Seq::filter_distributes_over_add(out.take(k), seq![x] + out.skip(k), p);
    Seq::filter_distributes_over_add(out.take(k), out.skip(k), p);
    out.skip(k).lemma_filter_prepend(x, p);
    if x.name@ == n {
        assert forall|j: int| 0 <= j < out.take(k).len() implies !p(
            #[trigger] out.take(k)[j],
        ) by {
            assert(out.take(k)[j] == out[j]);
            lemma_natural_order_str_laws(x.name@, out[j].name@);
        }
        out.take(k).lemma_all_neg_filter_empty(p);
    }
}

/// The entries of one name in `[x] + s`.
proof fn lemma_named_prepend(s: Seq<ImageEntry>, x: ImageEntry, n: Seq<char>)
    ensures
        entries_named(seq![x] + s, n) == if x.name@ == n {
            seq![x] + entries_named(s, n)
        } else {
            entries_named(s, n)
        },
{
    s.lemma_filter_prepend(x, entry_has_name(n));
}

/// The first position whose entry `x` does not follow in natural order.
fn insertion_point(out: &Vec<ImageEntry>, x: &ImageEntry) -> (k: usize)
    ensures
        k <= out@.len(),
        forall|j: int|
            0 <= j < k ==> natural_order_str(x.name@, #[trigger] out@[j].name@)
                == NameOrder::Greater,
        k < out@.len() ==> natural_order_str(x.name@, out@[k as int].name@) != NameOrder::Greater,
{
    reveal(natural_order_str);
    let mut k: usize = 0;
    while k < out.len() && natural_order_bytes(
        x.name.as_str().as_bytes(),
        out[k].name.as_str().as_bytes(),
    ) == NameOrder::Greater
        invariant
            k <= out@.len(),
            forall|j: int|
                0 <= j < k ==> natural_order_str(x.name@, #[trigger] out@[j].name@)
                    == NameOrder::Greater,
        decreases out@.len() - k,
    {
        proof {
            reveal(natural_order_str);
        }
        k += 1;
    }
    k
}

/// The invariant of `collect_image_entries` after `orig[..l]` is left to
/// process: `out` is sorted and holds, name by name, the supported entries
/// of `orig[l..]` in their given order.
#[verifier::opaque]
spec fn collect_inv(orig: Seq<ImageEntry>, l: int, out: Seq<ImageEntry>) -> bool {
    &&& sorted_by_name(out)
    &&& forall|n: Seq<char>|
        #[trigger] entries_named(out, n) == entries_named(supported_entries(orig.skip(l)), n)
}

/// The supported entries of `orig[l - 1..]`, name by name, once a supported
/// `orig[l - 1]` is placed ahead of every entry that it does not follow.
proof fn lemma_collect_insert_names(
    orig: Seq<ImageEntry>,
    l: int,
    out: Seq<ImageEntry>,
    k: int,
    n: Seq<char>,
)
    requires
        0 < l <= orig.len(),
        entries_named(out, n) == entries_named(supported_entries(orig.skip(l)), n),
        is_supported_path(orig[l - 1].path@),
        0 <= k <= out.len(),
        forall|j: int|
            0 <= j < k ==> natural_order_str(orig[l - 1].name@, #[trigger] out[j].name@)
                == NameOrder::Greater,
    ensures
        entries_named(out.insert(k, orig[l - 1]), n) == entries_named(
            supported_entries(orig.skip(l - 1)),
            n,
        ),
{
    let x = orig[l - 1];
    assert(orig.skip(l - 1) =~= seq![x] + orig.skip(l));
    orig.skip(l).lemma_filter_prepend(x, entry_is_supported());
    lemma_insert_named(out, x, k, n);
    lemma_named_prepend(supported_entries(orig.skip(l)), x, n);
}

/// Taking a supported `orig[l - 1]` into `out` at its insertion point keeps
/// the invariant.
proof fn lemma_collect_insert(orig: Seq<ImageEntry>, l: int, out: Seq<ImageEntry>, k: int)
    requires
        0 < l <= orig.len(),
        collect_inv(orig, l, out),
        is_supported_path(orig[l - 1].path@),
        0 <= k <= out.len(),
        forall|j: int|
            0 <= j < k ==> natural_order_str(orig[l - 1].name@, #[trigger] out[j].name@)
                == NameOrder::Greater,
        k < out.len() ==> natural_order_str(orig[l - 1].name@, out[k].name@)
            != NameOrder::Greater,
    ensures
        collect_inv(orig, l - 1, out.insert(k, orig[l - 1])),
{
    reveal(collect_inv);
    lemma_insert_sorted(out, orig[l - 1], k);
    assert forall|n: Seq<char>| #[trigger]
        entries_named(out.insert(k, orig[l - 1]), n) == entries_named(
            supported_entries(orig.skip(l - 1)),
            n,
        ) by {
        lemma_collect_insert_names(orig, l, out, k, n);
    }
}

/// Passing over an unsupported `orig[l - 1]` keeps the invariant.
proof fn lemma_collect_skip(orig: Seq<ImageEntry>, l: int, out: Seq<ImageEntry>)
    requires
        0 < l <= orig.len(),
        collect_inv(orig, l, out),
        !is_supported_path(orig[l - 1].path@),
    ensures
        collect_inv(orig, l - 1, out),
{
    reveal(collect_inv);
    let x = orig[l - 1];
    assert(orig.skip(l - 1) =~= seq![x] + orig.skip(l));
    orig.skip(l).lemma_filter_prepend(x, entry_is_supported());
    assert(supported_entries(orig.skip(l - 1)) =~= supported_entries(orig.skip(l)));
}

/// Orders a directory's image entries for display: entries whose path is
/// not a supported image are dropped, and the rest are sorted by file name
/// in natural order; entries of the same name keep their given order.
#[verifier::spinoff_prover]
pub fn collect_image_entries(entries: Vec<ImageEntry>) -> (r: Result<Vec<ImageEntry>, String>)
    ensures
        r is Ok,
        sorted_by_name(r->Ok_0@),
        names_in_order(r->Ok_0@),
        forall|n: Seq<char>|
            #[trigger] entries_named(r->Ok_0@, n) == entries_named(supported_entries(entries@), n),
{
    let ghost orig = entries@;
    let mut rest = entries;
    let mut out: Vec<ImageEntry> = Vec::new();
    proof {
        reveal(collect_inv);
        reveal(sorted_by_name);
        assert(orig.skip(orig.len() as int) =~= Seq::<ImageEntry>::empty());
        assert forall|n: Seq<char>| #[trigger]
            entries_named(out@, n) == entries_named(
                supported_entries(orig.skip(orig.len() as int)),
                n,
            ) by {
            reveal(Seq::filter);
            assert(entries_named(out@, n) =~= Seq::<ImageEntry>::empty());
            assert(supported_entries(Seq::<ImageEntry>::empty()) =~= Seq::<ImageEntry>::empty());
        }
    }
    while rest.len() > 0
        invariant
            rest@ == orig.take(rest@.len() as int),
            rest@.len() <= orig.len(),
            collect_inv(orig, rest@.len() as int, out@),
        decreases rest@.len(),
    {
        let ghost l = rest@.len() as int;
        let x = rest.pop().unwrap();
        proof {
            assert(x == orig[l - 1]);
            assert(rest@ =~= orig.take(l - 1));
        }
        if is_supported_image(x.path.as_str()) {
            let k = insertion_point(&out, &x);
            proof {
                lemma_collect_insert(orig, l, out@, k as int);
            }
            out.insert(k, x);
        } else {
            proof {
                lemma_collect_skip(orig, l, out@);
            }
        }
    }
    proof {
        reveal(collect_inv);
        assert(orig.skip(0) =~= orig);
        lemma_sorted_all_pairs(out@);
    }
    Ok(out)
}

} // verus!
