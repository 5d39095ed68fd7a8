//! Shortcut Key Normalizer.
//!
//! A shortcut is written as zero or more modifier tokens joined by `+` with a
//! trailing key token (`"Shift+Control+G"`).  Different spellings of the same
//! physical combination must compare equal, so this module canonicalizes a
//! spelling: every character is lower-cased, a `key` prefix on an
//! alphanumeric key name is stripped (`KeyG` becomes `g`), the vendor aliases
//! `commandorcontrol`, `cmd` and `command` become `control`, and the modifier
//! tokens are sorted; the result is the sorted modifiers and the key joined
//! by `+` again.  A malformed spelling (one with no key token, such as the
//! empty string) normalizes to itself and simply never matches anything.
//!
//! The model works on `Seq<char>`; `norm_spec` is the canonical form and
//! `normalize` the executable function that computes it.

use vstd::prelude::*;
use vstd::multiset::Multiset;
use vstd::relations::{sorted_by, total_ordering};
use vstd::seq_lib::lemma_sorted_unique;

verus! {

// ---------------------------------------------------------------------------
// Characters
// ---------------------------------------------------------------------------
/// ASCII lower-casing of one character; anything but `A`..`Z` is unchanged.
pub open spec fn lower_char(c: char) -> char {
    if 65 <= c as u32 && c as u32 <= 90 {
        ((c as u32 + 32) as u8) as char
    } else {
        c
    }
}

/// Lower-case every character of a string.
pub open spec fn lower_chars(s: Seq<char>) -> Seq<char> {
    s.map_values(|c: char| lower_char(c))
}

/// A lower-case letter or a digit, as found in a key name after lower-casing.
pub open spec fn is_lower_alnum(c: char) -> bool {
    (97 <= c as u32 && c as u32 <= 122) || (48 <= c as u32 && c as u32 <= 57)
}

/// Lower-casing an already lower-cased character changes nothing.
pub proof fn lemma_lower_char_idempotent(c: char)
    ensures
        lower_char(lower_char(c)) == lower_char(c),
{
}

/// Executable ASCII lower-casing of one character.
fn lower_char_exec(c: char) -> (r: char)
    ensures
        r == lower_char(c),
{
    let n = c as u32;
    if 65 <= n && n <= 90 {
        ((n + 32) as u8) as char
    } else {
        c
    }
}

// ---------------------------------------------------------------------------
// Tokens: splitting on '+' and joining with '+'
// ---------------------------------------------------------------------------
/// Split a string at every `+`.  The result always holds at least one token;
/// the empty string splits into one empty token.
pub open spec fn split_plus(s: Seq<char>) -> Seq<Seq<char>>
    decreases s.len(),
{
    if s.len() == 0 {
        seq![Seq::<char>::empty()]
    } else if s[0] == '+' {
        seq![Seq::<char>::empty()] + split_plus(s.drop_first())
    } else {
        let rest = split_plus(s.drop_first());
        seq![seq![s[0]] + rest[0]] + rest.drop_first()
    }
}

/// Join tokens with `+` between them.
pub open spec fn join_plus(ts: Seq<Seq<char>>) -> Seq<char>
    decreases ts.len(),
{
    if ts.len() == 0 {
        Seq::<char>::empty()
    } else if ts.len() == 1 {
        ts[0]
    } else {
        ts[0] + seq!['+'] + join_plus(ts.drop_first())
    }
}

/// A token never contains the separator.
pub open spec fn no_plus(t: Seq<char>) -> bool {
    forall|j: int| 0 <= j < t.len() ==> t[j] != '+'
}

pub proof fn lemma_split_plus_len(s: Seq<char>)
    ensures
        split_plus(s).len() >= 1,
    decreases s.len(),
{
    if s.len() == 0 {
    } else {
        lemma_split_plus_len(s.drop_first());
    }
}

pub proof fn lemma_split_plus_no_plus(s: Seq<char>)
    ensures
        forall|i: int| 0 <= i < split_plus(s).len() ==> no_plus(#[trigger] split_plus(s)[i]),
    decreases s.len(),
{
    if s.len() == 0 {
    } else {
        lemma_split_plus_no_plus(s.drop_first());
        lemma_split_plus_len(s.drop_first());
    }
}

/// A string without `+` splits into exactly itself.
pub proof fn lemma_split_plus_whole(t: Seq<char>)
    requires
        no_plus(t),
    ensures
        split_plus(t) =~~= seq![t],
    decreases t.len(),
{
    if t.len() == 0 {
    } else {
        assert(no_plus(t.drop_first()));
        lemma_split_plus_whole(t.drop_first());
        assert(seq![t[0]] + t.drop_first() =~= t);
    }
}

/// Splitting `t + "+" + u` peels off the token `t`.
pub proof fn lemma_split_plus_peel(t: Seq<char>, u: Seq<char>)
    requires
        no_plus(t),
    ensures
        split_plus(t + seq!['+'] + u) =~~= seq![t] + split_plus(u),
    decreases t.len(),
{
    let s = t + seq!['+'] + u;
    if t.len() == 0 {
        assert(s[0] == '+');
        assert(s.drop_first() =~= u);
    } else {
        assert(no_plus(t.drop_first()));
        lemma_split_plus_peel(t.drop_first(), u);
        assert(s[0] == t[0]);
        assert(s[0] != '+');
        assert(s.drop_first() =~= t.drop_first() + seq!['+'] + u);
        lemma_split_plus_len(u);
        let rest = split_plus(s.drop_first());
        assert(rest == seq![t.drop_first()] + split_plus(u));
        assert(rest[0] == t.drop_first());
        assert(seq![s[0]] + rest[0] =~= t);
        assert(rest.drop_first() =~= split_plus(u));
    }
}

/// Splitting undoes joining, as long as no token holds a `+`.
pub proof fn lemma_split_join(ts: Seq<Seq<char>>)
    requires
        ts.len() >= 1,
        forall|i: int| 0 <= i < ts.len() ==> no_plus(#[trigger] ts[i]),
    ensures
        split_plus(join_plus(ts)) =~~= ts,
    decreases ts.len(),
{
    if ts.len() == 1 {
        lemma_split_plus_whole(ts[0]);
    } else {
        lemma_split_join(ts.drop_first());
        lemma_split_plus_peel(ts[0], join_plus(ts.drop_first()));
        assert(seq![ts[0]] + ts.drop_first() =~= ts);
    }
}

/// Appending a separator ends the current token and opens an empty one.
pub proof fn lemma_split_plus_push_sep(s: Seq<char>)
    ensures
        split_plus(s.push('+')) =~~= split_plus(s).push(Seq::<char>::empty()),
    decreases s.len(),
{
    let sp = s.push('+');
    if s.len() == 0 {
        reveal_with_fuel(split_plus, 2);
        assert(sp =~= seq!['+']);
        assert(sp.drop_first() =~= Seq::<char>::empty());
        assert(split_plus(sp) =~~= seq![Seq::<char>::empty(), Seq::<char>::empty()]);
        assert(s =~= Seq::<char>::empty());
        assert(split_plus(s).push(Seq::<char>::empty()) =~~= seq![
            Seq::<char>::empty(),
            Seq::<char>::empty(),
        ]);
    } else {
        lemma_split_plus_push_sep(s.drop_first());
        assert(sp.drop_first() =~= s.drop_first().push('+'));
        lemma_split_plus_len(s.drop_first());
        let rest = split_plus(s.drop_first());
        if s[0] == '+' {
            assert(split_plus(sp) == seq![Seq::<char>::empty()] + rest.push(Seq::<char>::empty()));
            assert(seq![Seq::<char>::empty()] + rest.push(Seq::<char>::empty()) =~~= (seq![
                Seq::<char>::empty(),
            ] + rest).push(Seq::<char>::empty()));
        } else {
            let restp = rest.push(Seq::<char>::empty());
            assert(split_plus(sp) == seq![seq![sp[0]] + restp[0]] + restp.drop_first());
            assert(restp[0] == rest[0]);
            assert(restp.drop_first() =~= rest.drop_first().push(Seq::<char>::empty()));
            assert(seq![seq![s[0]] + rest[0]] + rest.drop_first().push(Seq::<char>::empty())
                =~~= (seq![seq![s[0]] + rest[0]] + rest.drop_first()).push(Seq::<char>::empty()));
        }
    }
}

/// Appending an ordinary character extends the last token.
pub proof fn lemma_split_plus_push_char(s: Seq<char>, c: char)
    requires
        c != '+',
    ensures
        split_plus(s.push(c)) =~~= split_plus(s).update(
            split_plus(s).len() - 1,
            split_plus(s).last().push(c),
        ),
    decreases s.len(),
{
    let sp = s.push(c);
    lemma_split_plus_len(s);
    if s.len() == 0 {
        reveal_with_fuel(split_plus, 2);
        assert(sp =~= seq![c]);
        assert(sp.drop_first() =~= Seq::<char>::empty());
        assert(seq![c] + Seq::<char>::empty() =~= seq![c]);
        assert(split_plus(sp) =~~= seq![seq![c]]);
        assert(s =~= Seq::<char>::empty());
        assert(Seq::<char>::empty().push(c) =~= seq![c]);
        assert(split_plus(s).update(0, Seq::<char>::empty().push(c)) =~~= seq![seq![c]]);
    } else {
        lemma_split_plus_push_char(s.drop_first(), c);
        assert(sp.drop_first() =~= s.drop_first().push(c));
        lemma_split_plus_len(s.drop_first());
        let rest = split_plus(s.drop_first());
        let restu = rest.update(rest.len() - 1, rest.last().push(c));
        if s[0] == '+' {
            assert(split_plus(sp) == seq![Seq::<char>::empty()] + restu);
            assert(split_plus(s) == seq![Seq::<char>::empty()] + rest);
            assert(split_plus(s).last() == rest.last());
            assert(seq![Seq::<char>::empty()] + restu =~~= (seq![Seq::<char>::empty()]
                + rest).update(rest.len() as int, rest.last().push(c)));
        } else {
            assert(split_plus(sp) == seq![seq![sp[0]] + restu[0]] + restu.drop_first());
            assert(split_plus(s) == seq![seq![s[0]] + rest[0]] + rest.drop_first());
            if rest.len() == 1 {
                assert(restu[0] == rest[0].push(c));
                assert(restu.drop_first() =~= rest.drop_first());
                assert(rest.drop_first() =~= Seq::<Seq<char>>::empty());
                assert(seq![s[0]] + rest[0].push(c) =~= (seq![s[0]] + rest[0]).push(c));
                assert(split_plus(s).last() == seq![s[0]] + rest[0]);
                assert(split_plus(sp) =~~= split_plus(s).update(0, (seq![s[0]] + rest[0]).push(c)));
            } else {
                assert(restu[0] == rest[0]);
                assert(restu.drop_first() =~= rest.drop_first().update(
                    rest.len() - 2,
                    rest.last().push(c),
                ));
                assert(split_plus(s).last() == rest.last());
                assert(seq![seq![s[0]] + rest[0]] + rest.drop_first().update(
                    rest.len() - 2,
                    rest.last().push(c),
                ) =~~= (seq![seq![s[0]] + rest[0]] + rest.drop_first()).update(
                    rest.len() - 1,
                    rest.last().push(c),
                ));
            }
        }
    }
}

// ---------------------------------------------------------------------------
// Canonical tokens
// ---------------------------------------------------------------------------
/// The canonical spelling of the control modifier.
pub open spec fn control_tok() -> Seq<char> {
    seq!['c', 'o', 'n', 't', 'r', 'o', 'l']
}

pub open spec fn shift_tok() -> Seq<char> {
    seq!['s', 'h', 'i', 'f', 't']
}

pub open spec fn alt_tok() -> Seq<char> {
    seq!['a', 'l', 't']
}

/// Lower-cased alias spellings that all mean the control modifier.
pub open spec fn is_alias(t: Seq<char>) -> bool {
    ||| t == seq!['c', 'o', 'm', 'm', 'a', 'n', 'd', 'o', 'r', 'c', 'o', 'n', 't', 'r', 'o', 'l']
    ||| t == seq!['c', 'm', 'd']
    ||| t == seq!['c', 'o', 'm', 'm', 'a', 'n', 'd']
}

/// A token that begins with the literal prefix `key` followed by a non-empty
/// alphanumeric key name, as in `keyg` for the key rendered as `KeyG`.
pub open spec fn key_prefixed(t: Seq<char>) -> bool {
    &&& t.len() > 3
    &&& t.subrange(0, 3) == seq!['k', 'e', 'y']
    &&& forall|j: int| 3 <= j < t.len() ==> is_lower_alnum(#[trigger] t[j])
}

/// Strip every `key` prefix from an alphanumeric key name.
pub open spec fn strip_key(t: Seq<char>) -> Seq<char>
    decreases t.len(),
{
    if key_prefixed(t) {
        strip_key(t.subrange(3, t.len() as int))
    } else {
        t
    }
}

/// Canonical form of one token: strip the `key` prefix, then fold the
/// control aliases into `control`.
pub open spec fn canon_token(t: Seq<char>) -> Seq<char> {
    let s = strip_key(t);
    if is_alias(s) {
        control_tok()
    } else {
        s
    }
}

pub proof fn lemma_strip_key_fixpoint(t: Seq<char>)
    ensures
        !key_prefixed(strip_key(t)),
    decreases t.len(),
{
    if key_prefixed(t) {
        lemma_strip_key_fixpoint(t.subrange(3, t.len() as int));
    }
}

/// Canonicalizing a token twice gives the same token as doing it once.
pub proof fn lemma_canon_token_idempotent(t: Seq<char>)
    ensures
        canon_token(canon_token(t)) == canon_token(t),
{
    lemma_strip_key_fixpoint(t);
    let s = strip_key(t);
    if is_alias(s) {
        assert(control_tok().subrange(0, 3) =~= seq!['c', 'o', 'n']);
        assert(!key_prefixed(control_tok()));
        assert(!is_alias(control_tok()));
    }
}

/// Every character of the token is already lower-cased.
pub open spec fn lower_fixed(t: Seq<char>) -> bool {
    forall|j: int| 0 <= j < t.len() ==> lower_char(#[trigger] t[j]) == t[j]
}

pub proof fn lemma_canon_token_no_plus(t: Seq<char>)
    requires
        no_plus(t),
    ensures
        no_plus(canon_token(t)),
{
    lemma_strip_key_no_plus(t);
}

proof fn lemma_strip_key_no_plus(t: Seq<char>)
    requires
        no_plus(t),
    ensures
        no_plus(strip_key(t)),
    decreases t.len(),
{
    if key_prefixed(t) {
        assert(no_plus(t.subrange(3, t.len() as int)));
        lemma_strip_key_no_plus(t.subrange(3, t.len() as int));
    }
}

pub proof fn lemma_canon_token_lower_fixed(t: Seq<char>)
    requires
        lower_fixed(t),
    ensures
        lower_fixed(canon_token(t)),
{
    lemma_strip_key_lower_fixed(t);
}

proof fn lemma_strip_key_lower_fixed(t: Seq<char>)
    requires
        lower_fixed(t),
    ensures
        lower_fixed(strip_key(t)),
    decreases t.len(),
{
    if key_prefixed(t) {
        assert(lower_fixed(t.subrange(3, t.len() as int)));
        lemma_strip_key_lower_fixed(t.subrange(3, t.len() as int));
    }
}

// ---------------------------------------------------------------------------
// Lexicographic order on tokens
// ---------------------------------------------------------------------------
/// Lexicographic comparison by character value; the order the modifier
/// tokens are sorted in.
pub open spec fn chars_le(a: Seq<char>, b: Seq<char>) -> bool
    decreases a.len(),
{
    if a.len() == 0 {
        true
    } else if b.len() == 0 {
        false
    } else if (a[0] as u32) < (b[0] as u32) {
        true
    } else if (a[0] as u32) > (b[0] as u32) {
        false
    } else {
        chars_le(a.drop_first(), b.drop_first())
    }
}

/// The comparison as a relation value, for the sorting lemmas.
pub open spec fn tok_le() -> spec_fn(Seq<char>, Seq<char>) -> bool {
    |a: Seq<char>, b: Seq<char>| chars_le(a, b)
}

/// Two characters with the same scalar value are the same character.
proof fn lemma_char_eq(c1: char, c2: char)
    requires
        c1 as u32 == c2 as u32,
    ensures
        c1 == c2,
{
    vstd::utf8::char_u32_cast(c1, c1 as u32);
    vstd::utf8::char_u32_cast(c2, c2 as u32);
}

proof fn lemma_chars_le_refl(a: Seq<char>)
    ensures
        chars_le(a, a),
    decreases a.len(),
{
    if a.len() > 0 {
        lemma_chars_le_refl(a.drop_first());
    }
}

proof fn lemma_chars_le_antisym(a: Seq<char>, b: Seq<char>)
    requires
        chars_le(a, b),
        chars_le(b, a),
    ensures
        a == b,
    decreases a.len(),
{
    if a.len() == 0 {
        assert(b.len() == 0);
        assert(a =~= b);
    } else {
        assert(a[0] as u32 == b[0] as u32);
        lemma_char_eq(a[0], b[0]);
        lemma_chars_le_antisym(a.drop_first(), b.drop_first());
        assert(a =~= seq![a[0]] + a.drop_first());
        assert(b =~= seq![b[0]] + b.drop_first());
    }
}

proof fn lemma_chars_le_trans(a: Seq<char>, b: Seq<char>, c: Seq<char>)
    requires
        chars_le(a, b),
        chars_le(b, c),
    ensures
        chars_le(a, c),
    decreases a.len(),
{
    if a.len() > 0 && b.len() > 0 && c.len() > 0 && a[0] as u32 == b[0] as u32 && b[0] as u32
        == c[0] as u32 {
        lemma_chars_le_trans(a.drop_first(), b.drop_first(), c.drop_first());
    }
}

proof fn lemma_chars_le_connected(a: Seq<char>, b: Seq<char>)
    ensures
        chars_le(a, b) || chars_le(b, a),
    decreases a.len(),
{
    if a.len() > 0 && b.len() > 0 && a[0] as u32 == b[0] as u32 {
        lemma_chars_le_connected(a.drop_first(), b.drop_first());
    }
}

/// Lexicographic comparison is a total order, so sorting by it is
/// well behaved and a sorted arrangement is unique.
pub proof fn lemma_tok_le_total_ordering()
    ensures
        total_ordering(tok_le()),
{
    assert forall|a: Seq<char>| #[trigger] tok_le()(a, a) by {
        lemma_chars_le_refl(a);
    }
    assert forall|a: Seq<char>, b: Seq<char>|
        #[trigger] tok_le()(a, b) && #[trigger] tok_le()(b, a) implies a == b by {
        lemma_chars_le_antisym(a, b);
    }
    assert forall|a: Seq<char>, b: Seq<char>, c: Seq<char>|
        #[trigger] tok_le()(a, b) && #[trigger] tok_le()(b, c) implies tok_le()(a, c) by {
        lemma_chars_le_trans(a, b, c);
    }
    assert forall|a: Seq<char>, b: Seq<char>| #[trigger]
        tok_le()(a, b) || #[trigger] tok_le()(b, a) by {
        lemma_chars_le_connected(a, b);
    }
}

// ---------------------------------------------------------------------------
// Sorting the modifier tokens
// ---------------------------------------------------------------------------
/// Insert a token into a sorted token sequence, keeping it sorted.
pub open spec fn insert_sorted(x: Seq<char>, ss: Seq<Seq<char>>) -> Seq<Seq<char>>
    decreases ss.len(),
{
    if ss.len() == 0 {
        seq![x]
    } else if chars_le(x, ss[0]) {
        seq![x] + ss
    } else {
        seq![ss[0]] + insert_sorted(x, ss.drop_first())
    }
}

/// Insertion sort of the modifier tokens, lexicographically.
pub open spec fn sort_tokens(ss: Seq<Seq<char>>) -> Seq<Seq<char>>
    decreases ss.len(),
{
    if ss.len() == 0 {
        Seq::<Seq<char>>::empty()
    } else {
        insert_sorted(ss[0], sort_tokens(ss.drop_first()))
    }
}

pub proof fn lemma_insert_sorted_multiset(x: Seq<char>, ss: Seq<Seq<char>>)
    ensures
        insert_sorted(x, ss).to_multiset() =~= ss.to_multiset().insert(x),
        insert_sorted(x, ss).len() == ss.len() + 1,
    decreases ss.len(),
{
    broadcast use vstd::seq_lib::group_to_multiset_ensures;

    if ss.len() == 0 {
        assert(seq![x] =~= Seq::<Seq<char>>::empty().push(x));
    } else if chars_le(x, ss[0]) {
        lemma_seq_cons_multiset(x, seq![x] + ss);
        assert((seq![x] + ss).drop_first() =~= ss);
    } else {
        lemma_insert_sorted_multiset(x, ss.drop_first());
        lemma_seq_cons_multiset(ss[0], seq![ss[0]] + insert_sorted(x, ss.drop_first()));
        lemma_seq_cons_multiset(ss[0], ss);
        assert((seq![ss[0]] + insert_sorted(x, ss.drop_first())).drop_first() =~= insert_sorted(
            x,
            ss.drop_first(),
        ));
        assert((seq![ss[0]] + ss.drop_first()).drop_first() =~= ss.drop_first());
        assert(seq![ss[0]] + ss.drop_first() =~= ss);
    }
}

/// The multiset of a non-empty sequence is the multiset of its tail plus its head.
proof fn lemma_seq_cons_multiset(h: Seq<char>, ss: Seq<Seq<char>>)
    requires
        ss.len() >= 1,
        ss[0] == h,
    ensures
        ss.to_multiset() =~= ss.drop_first().to_multiset().insert(h),
{
    broadcast use vstd::seq_lib::group_to_multiset_ensures;

    vstd::seq_lib::lemma_multiset_commutative(seq![h], ss.drop_first());
    assert(seq![h] + ss.drop_first() =~= ss);
    assert(seq![h] =~= Seq::<Seq<char>>::empty().push(h));
    assert(seq![h].to_multiset() =~= Multiset::<Seq<char>>::empty().insert(h));
}

/// Prepending a lower bound to a sorted sequence keeps it sorted.
proof fn lemma_sorted_cons(h: Seq<char>, t: Seq<Seq<char>>)
    requires
        sorted_by(t, tok_le()),
        forall|k: int| 0 <= k < t.len() ==> chars_le(h, #[trigger] t[k]),
    ensures
        sorted_by(seq![h] + t, tok_le()),
{
    let s = seq![h] + t;
    assert forall|i: int, j: int| 0 <= i < j < s.len() implies tok_le()(s[i], s[j]) by {
        if i == 0 {
            assert(s[j] == t[j - 1]);
        } else {
            assert(s[i] == t[i - 1]);
            assert(s[j] == t[j - 1]);
        }
    }
}

pub proof fn lemma_insert_sorted_sorted(x: Seq<char>, ss: Seq<Seq<char>>)
    requires
        sorted_by(ss, tok_le()),
    ensures
        sorted_by(insert_sorted(x, ss), tok_le()),
    decreases ss.len(),
{
    if ss.len() == 0 {
        assert(sorted_by(seq![x], tok_le()));
    } else if chars_le(x, ss[0]) {
        assert forall|k: int| 0 <= k < ss.len() implies chars_le(x, #[trigger] ss[k]) by {
            if k > 0 {
                assert(tok_le()(ss[0], ss[k]));
                lemma_chars_le_trans(x, ss[0], ss[k]);
            }
        }
        lemma_sorted_cons(x, ss);
    } else {
        let rest = ss.drop_first();
        assert(sorted_by(rest, tok_le())) by {
            assert forall|i: int, j: int| 0 <= i < j < rest.len() implies tok_le()(
                rest[i],
                rest[j],
            ) by {
                assert(rest[i] == ss[i + 1]);
                assert(rest[j] == ss[j + 1]);
            }
        }
        lemma_insert_sorted_sorted(x, rest);
        lemma_chars_le_connected(x, ss[0]);
        lemma_insert_sorted_multiset(x, rest);
        broadcast use vstd::seq_lib::group_to_multiset_ensures;

        let ins = insert_sorted(x, rest);
        assert forall|k: int| 0 <= k < ins.len() implies chars_le(ss[0], #[trigger] ins[k]) by {
            assert(ins.to_multiset().contains(ins[k]));
            assert(rest.to_multiset().insert(x).contains(ins[k]));
            if ins[k] == x {
                assert(chars_le(ss[0], x));
            } else {
                assert(rest.to_multiset().contains(ins[k]));
                assert(rest.contains(ins[k]));
                let j = choose|j: int| 0 <= j < rest.len() && rest[j] == ins[k];
                assert(tok_le()(ss[0], ss[j + 1]));
            }
        }
        lemma_sorted_cons(ss[0], ins);
    }
}

pub proof fn lemma_sort_tokens_ensures(ss: Seq<Seq<char>>)
    ensures
        sorted_by(sort_tokens(ss), tok_le()),
        sort_tokens(ss).to_multiset() =~= ss.to_multiset(),
        sort_tokens(ss).len() == ss.len(),
    decreases ss.len(),
{
    broadcast use vstd::seq_lib::group_to_multiset_ensures;

    if ss.len() == 0 {
    } else {
        lemma_sort_tokens_ensures(ss.drop_first());
        lemma_insert_sorted_sorted(ss[0], sort_tokens(ss.drop_first()));
        lemma_insert_sorted_multiset(ss[0], sort_tokens(ss.drop_first()));
        lemma_seq_cons_multiset(ss[0], ss);
    }
}

/// Sorting an already sorted token sequence changes nothing.
pub proof fn lemma_sort_tokens_sorted_id(ss: Seq<Seq<char>>)
    requires
        sorted_by(ss, tok_le()),
    ensures
        sort_tokens(ss) == ss,
{
    lemma_sort_tokens_ensures(ss);
    lemma_tok_le_total_ordering();
    lemma_sorted_unique(sort_tokens(ss), ss, tok_le());
}

/// Sorting sees only the multiset of tokens, not their order.
pub proof fn lemma_sort_tokens_permutation(a: Seq<Seq<char>>, b: Seq<Seq<char>>)
    requires
        a.to_multiset() == b.to_multiset(),
    ensures
        sort_tokens(a) == sort_tokens(b),
{
    lemma_sort_tokens_ensures(a);
    lemma_sort_tokens_ensures(b);
    lemma_tok_le_total_ordering();
    lemma_sorted_unique(sort_tokens(a), sort_tokens(b), tok_le());
}

// ---------------------------------------------------------------------------
// The normalizer
// ---------------------------------------------------------------------------
/// Canonicalize every token of a sequence.
pub open spec fn canon_map(ts: Seq<Seq<char>>) -> Seq<Seq<char>> {
    ts.map_values(|t: Seq<char>| canon_token(t))
}

/// The canonical tokens of a spelling: lower-cased, split at `+`, and each
/// token canonicalized.  The last token is the key, the ones before it the
/// modifiers.
pub open spec fn canon_tokens_of(s: Seq<char>) -> Seq<Seq<char>> {
    canon_map(split_plus(lower_chars(s)))
}

/// The canonical token sequence: the modifiers sorted, then the key.
pub open spec fn normal_tokens(s: Seq<char>) -> Seq<Seq<char>> {
    let ts = canon_tokens_of(s);
    sort_tokens(ts.drop_last()) + seq![ts.last()]
}

/// The canonical form of a shortcut spelling.  Two spellings denote the same
/// key combination exactly when their canonical forms are equal.
pub open spec fn norm_spec(s: Seq<char>) -> Seq<char> {
    join_plus(normal_tokens(s))
}

/// A token as it occurs in a canonical form: free of separators, fully
/// lower-cased, and stable under canonicalization.
pub open spec fn good_token(t: Seq<char>) -> bool {
    no_plus(t) && lower_fixed(t) && canon_token(t) == t
}

proof fn lemma_split_plus_lower_fixed(s: Seq<char>)
    requires
        lower_fixed(s),
    ensures
        forall|i: int| 0 <= i < split_plus(s).len() ==> lower_fixed(#[trigger] split_plus(s)[i]),
    decreases s.len(),
{
    if s.len() == 0 {
    } else {
        assert(lower_fixed(s.drop_first()));
        lemma_split_plus_lower_fixed(s.drop_first());
        lemma_split_plus_len(s.drop_first());
    }
}

proof fn lemma_canon_tokens_good(s: Seq<char>)
    ensures
        canon_tokens_of(s).len() >= 1,
        forall|i: int|
            0 <= i < canon_tokens_of(s).len() ==> good_token(#[trigger] canon_tokens_of(s)[i]),
{
    let u = lower_chars(s);
    assert(lower_fixed(u)) by {
        assert forall|j: int| 0 <= j < u.len() implies lower_char(#[trigger] u[j]) == u[j] by {
            lemma_lower_char_idempotent(s[j]);
        }
    }
    lemma_split_plus_len(u);
    lemma_split_plus_no_plus(u);
    lemma_split_plus_lower_fixed(u);
    assert forall|i: int| 0 <= i < canon_tokens_of(s).len() implies good_token(
        #[trigger] canon_tokens_of(s)[i],
    ) by {
        let t = split_plus(u)[i];
        lemma_canon_token_no_plus(t);
        lemma_canon_token_lower_fixed(t);
        lemma_canon_token_idempotent(t);
    }
}

proof fn lemma_sort_preserves_good(ss: Seq<Seq<char>>)
    requires
        forall|i: int| 0 <= i < ss.len() ==> good_token(#[trigger] ss[i]),
    ensures
        forall|i: int| 0 <= i < sort_tokens(ss).len() ==> good_token(#[trigger] sort_tokens(ss)[i]),
{
    broadcast use vstd::seq_lib::group_to_multiset_ensures;

    lemma_sort_tokens_ensures(ss);
    let so = sort_tokens(ss);
    assert forall|i: int| 0 <= i < so.len() implies good_token(#[trigger] so[i]) by {
        assert(so.to_multiset().contains(so[i]));
        assert(ss.to_multiset().contains(so[i]));
        assert(ss.contains(so[i]));
        let j = choose|j: int| 0 <= j < ss.len() && ss[j] == so[i];
        assert(good_token(ss[j]));
    }
}

proof fn lemma_join_lower_fixed(ts: Seq<Seq<char>>)
    requires
        forall|i: int| 0 <= i < ts.len() ==> lower_fixed(#[trigger] ts[i]),
    ensures
        lower_fixed(join_plus(ts)),
    decreases ts.len(),
{
    if ts.len() <= 1 {
    } else {
        assert forall|i: int| 0 <= i < ts.drop_first().len() implies lower_fixed(
            #[trigger] ts.drop_first()[i],
        ) by {
            assert(ts.drop_first()[i] == ts[i + 1]);
        }
        lemma_join_lower_fixed(ts.drop_first());
        let j = join_plus(ts);
        assert(lower_char('+') == '+');
        assert forall|k: int| 0 <= k < j.len() implies lower_char(#[trigger] j[k]) == j[k] by {
            let h = ts[0];
            if k < h.len() {
                assert(j[k] == h[k]);
            } else if k == h.len() {
                assert(j[k] == '+');
            } else {
                assert(j[k] == join_plus(ts.drop_first())[k - h.len() - 1]);
            }
        }
    }
}

/// Normalizing is idempotent: a canonical form is its own canonical form.
pub proof fn lemma_normalize_idempotent(s: Seq<char>)
    ensures
        norm_spec(norm_spec(s)) == norm_spec(s),
{
    let ts = canon_tokens_of(s);
    lemma_canon_tokens_good(s);
    let mods = ts.drop_last();
    let key = ts.last();
    let smods = sort_tokens(mods);
    let nts = normal_tokens(s);
    assert forall|i: int| 0 <= i < mods.len() implies good_token(#[trigger] mods[i]) by {
        assert(mods[i] == ts[i]);
    }
    lemma_sort_preserves_good(mods);
    lemma_sort_tokens_ensures(mods);
    assert forall|i: int| 0 <= i < nts.len() implies good_token(#[trigger] nts[i]) by {
        if i < smods.len() {
            assert(nts[i] == smods[i]);
        } else {
            assert(nts[i] == key);
        }
    }
    let r = norm_spec(s);
    lemma_join_lower_fixed(nts);
    assert(lower_chars(r) =~= r);
    lemma_split_join(nts);
    assert(canon_tokens_of(r) =~~= nts) by {
        assert(split_plus(lower_chars(r)) == nts);
        assert forall|i: int| 0 <= i < nts.len() implies canon_tokens_of(r)[i] == nts[i] by {
            assert(canon_token(nts[i]) == nts[i]);
        }
    }
    let ts2 = canon_tokens_of(r);
    assert(ts2.drop_last() =~~= smods);
    assert(ts2.last() == key);
    lemma_sort_tokens_sorted_id(smods);
    assert(normal_tokens(r) =~~= nts);
}

// ---------------------------------------------------------------------------
// Executable normalizer
// ---------------------------------------------------------------------------
/// The token views of a vector of tokens.
pub open spec fn toks_view(ts: Seq<Vec<char>>) -> Seq<Seq<char>> {
    ts.map_values(|t: Vec<char>| t@)
}

/// Relies on `String`'s `FromIterator<char>`: collecting characters yields
/// the string whose characters they are.
#[verifier::external_body]
fn chars_to_string(v: &Vec<char>) -> (r: String)
    ensures
        r@ == v@,
{
    v.iter().collect()
}

/// The characters of a string slice, as a vector.
fn char_vec_of(s: &str) -> (v: Vec<char>)
    ensures
        v@ == s@,
{
    let n = s.unicode_len();
    let mut v: Vec<char> = Vec::new();
    let mut i: usize = 0;
    while i < n
        invariant
            n == s@.len(),
            0 <= i <= n,
            v@ == s@.subrange(0, i as int),
        decreases n - i,
    {
        let c = s.get_char(i);
        v.push(c);
        i = i + 1;
        proof {
            assert(v@ =~= s@.subrange(0, i as int));
        }
    }
    proof {
        assert(v@ =~= s@);
    }
    v
}

/// Lower-case every character of a token vector.
fn lower_vec(v: &Vec<char>) -> (r: Vec<char>)
    ensures
        r@ == lower_chars(v@),
{
    let mut r: Vec<char> = Vec::new();
    let mut i: usize = 0;
    while i < v.len()
        invariant
            0 <= i <= v@.len(),
            r@ == lower_chars(v@.subrange(0, i as int)),
        decreases v@.len() - i,
    {
        r.push(lower_char_exec(v[i]));
        i = i + 1;
        proof {
            assert(r@ =~= lower_chars(v@.subrange(0, i as int)));
        }
    }
    proof {
        assert(v@.subrange(0, v@.len() as int) =~= v@);
    }
    r
}

/// Split a character vector at every `+`.
fn split_vec(v: &Vec<char>) -> (ts: Vec<Vec<char>>)
    ensures
        toks_view(ts@) == split_plus(v@),
{
    let mut ts: Vec<Vec<char>> = Vec::new();
    let mut cur: Vec<char> = Vec::new();
    let mut i: usize = 0;
    while i < v.len()
        invariant
            0 <= i <= v@.len(),
            toks_view(ts@).push(cur@) =~~= split_plus(v@.subrange(0, i as int)),
        decreases v@.len() - i,
    {
        let ghost pre = v@.subrange(0, i as int);
        let c = v[i];
        if c == '+' {
            ts.push(cur);
            cur = Vec::new();
            proof {
                lemma_split_plus_push_sep(pre);
            }
        } else {
            cur.push(c);
            proof {
                lemma_split_plus_push_char(pre, c);
                lemma_split_plus_len(pre);
            }
        }
        i = i + 1;
        proof {
            assert(pre.push(c) =~= v@.subrange(0, i as int));
            assert(toks_view(ts@).push(cur@) =~~= split_plus(v@.subrange(0, i as int)));
        }
    }
    ts.push(cur);
    proof {
        assert(v@.subrange(0, v@.len() as int) =~= v@);
        assert(toks_view(ts@) =~~= split_plus(v@));
    }
    ts
}

/// Whether every character from position `from` on is a lower-case letter or
/// digit.
fn all_alnum_from(t: &Vec<char>, from: usize) -> (r: bool)
    requires
        from <= t@.len(),
    ensures
        r == (forall|j: int| from <= j < t@.len() ==> is_lower_alnum(#[trigger] t@[j])),
{
    let mut i: usize = from;
    while i < t.len()
        invariant
            from <= i <= t@.len(),
            forall|j: int| from <= j < i ==> is_lower_alnum(#[trigger] t@[j]),
        decreases t@.len() - i,
    {
        let n = t[i] as u32;
        if !((97 <= n && n <= 122) || (48 <= n && n <= 57)) {
            return false;
        }
        i = i + 1;
    }
    true
}

/// A freshly built canonical `control` token.
pub(crate) fn control_vec() -> (v: Vec<char>)
    ensures
        v@ == control_tok(),
{
    let mut v: Vec<char> = Vec::new();
    v.push('c');
    v.push('o');
    v.push('n');
    v.push('t');
    v.push('r');
    v.push('o');
    v.push('l');
    proof {
        assert(v@ =~= control_tok());
    }
    v
}

/// Whether a token is one of the lower-cased control alias spellings.
fn is_alias_vec(t: &Vec<char>) -> (r: bool)
    ensures
        r == is_alias(t@),
{
    if t.len() == 3 {
        let r = t[0] == 'c' && t[1] == 'm' && t[2] == 'd';
        proof {
            if r {
                assert(t@ =~= seq!['c', 'm', 'd']);
            }
        }
        r
    } else if t.len() == 7 {
        let r = t[0] == 'c' && t[1] == 'o' && t[2] == 'm' && t[3] == 'm' && t[4] == 'a' && t[5]
            == 'n' && t[6] == 'd';
        proof {
            if r {
                assert(t@ =~= seq!['c', 'o', 'm', 'm', 'a', 'n', 'd']);
            }
        }
        r
    } else if t.len() == 16 {
        let r = t[0] == 'c' && t[1] == 'o' && t[2] == 'm' && t[3] == 'm' && t[4] == 'a' && t[5]
            == 'n' && t[6] == 'd' && t[7] == 'o' && t[8] == 'r' && t[9] == 'c' && t[10] == 'o'
            && t[11] == 'n' && t[12] == 't' && t[13] == 'r' && t[14] == 'o' && t[15] == 'l';
        proof {
            if r {
                assert(t@ =~= seq![
                    'c',
                    'o',
                    'm',
                    'm',
                    'a',
                    'n',
                    'd',
                    'o',
                    'r',
                    'c',
                    'o',
                    'n',
                    't',
                    'r',
                    'o',
                    'l',
                ]);
            }
        }
        r
    } else {
        false
    }
}

/// Canonicalize one lower-cased token: strip the `key` prefixes, then fold
/// the control aliases.
fn canon_vec(t: &Vec<char>) -> (r: Vec<char>)
    ensures
        r@ == canon_token(t@),
{
    let mut start: usize = 0;
    proof {
        assert(t@.skip(0) =~= t@);
    }
    loop
        invariant
            0 <= start <= t@.len(),
            strip_key(t@) == strip_key(t@.skip(start as int)),
        ensures
            0 <= start <= t@.len(),
            strip_key(t@) == t@.skip(start as int),
        decreases t@.len() - start,
    {
        let remaining = t.len() - start;
        let prefixed: bool = if remaining > 3 && t[start] == 'k' && t[start + 1] == 'e' && t[start
            + 2] == 'y' {
            all_alnum_from(t, start + 3)
        } else {
            false
        };
        proof {
            let suf = t@.skip(start as int);
            assert(suf.len() == t@.len() - start);
            assert(forall|j: int| 0 <= j < suf.len() ==> #[trigger] suf[j] == t@[start + j]);
            if prefixed {
                assert(suf.subrange(0, 3) =~= seq!['k', 'e', 'y']);
                assert forall|j: int| 3 <= j < suf.len() implies is_lower_alnum(
                    #[trigger] suf[j],
                ) by {
                    assert(suf[j] == t@[start + j]);
                }
                assert(key_prefixed(suf));
                assert(suf.subrange(3, suf.len() as int) =~= t@.skip(start as int + 3));
            } else {
                assert(!key_prefixed(suf)) by {
                    if key_prefixed(suf) {
                        assert(suf.subrange(0, 3)[0] == 'k');
                        assert(suf.subrange(0, 3)[1] == 'e');
                        assert(suf.subrange(0, 3)[2] == 'y');
                        assert(t@[start as int] == 'k');
                        assert(t@[start as int + 1] == 'e');
                        assert(t@[start as int + 2] == 'y');
                        assert forall|j: int| start + 3 <= j < t@.len() implies is_lower_alnum(
                            #[trigger] t@[j],
                        ) by {
                            assert(t@[j] == suf[j - start]);
                            assert(is_lower_alnum(suf[j - start]));
                        }
                    }
                }
                assert(strip_key(suf) == suf);
            }
        }
        if prefixed {
            start = start + 3;
        } else {
            break ;
        }
    }
    let mut stripped: Vec<char> = Vec::new();
    let mut i: usize = start;
    while i < t.len()
        invariant
            start <= i <= t@.len(),
            stripped@ == t@.subrange(start as int, i as int),
        decreases t@.len() - i,
    {
        stripped.push(t[i]);
        i = i + 1;
        proof {
            assert(stripped@ =~= t@.subrange(start as int, i as int));
        }
    }
    proof {
        assert(stripped@ =~= t@.skip(start as int));
    }
    if is_alias_vec(&stripped) {
        control_vec()
    } else {
        stripped
    }
}

/// Lexicographic comparison of two tokens.
fn chars_le_exec(a: &Vec<char>, b: &Vec<char>) -> (r: bool)
    ensures
        r == chars_le(a@, b@),
{
    let mut i: usize = 0;
    proof {
        assert(a@.skip(0) =~= a@);
        assert(b@.skip(0) =~= b@);
    }
    loop
        invariant
            0 <= i <= a@.len(),
            i <= b@.len(),
            chars_le(a@, b@) == chars_le(a@.skip(i as int), b@.skip(i as int)),
        decreases a@.len() - i,
    {
        proof {
            if i < a@.len() && i < b@.len() {
                assert(a@.skip(i as int)[0] == a@[i as int]);
                assert(a@.skip(i as int).drop_first() =~= a@.skip(i as int + 1));
                assert(b@.skip(i as int).drop_first() =~= b@.skip(i as int + 1));
            }
        }
        if i >= a.len() {
            return true;
        }
        if i >= b.len() {
            return false;
        }
        let ca = a[i] as u32;
        let cb = b[i] as u32;
        if ca < cb {
            return true;
        }
        if ca > cb {
            return false;
        }
        i = i + 1;
    }
}

/// Where `insert_sorted` puts the new token: at the first position whose
/// token is not below it.
proof fn lemma_insert_sorted_at(x: Seq<char>, ss: Seq<Seq<char>>, j: int)
    requires
        0 <= j <= ss.len(),
        forall|k: int| 0 <= k < j ==> !chars_le(x, #[trigger] ss[k]),
        j < ss.len() ==> chars_le(x, ss[j]),
    ensures
        insert_sorted(x, ss) =~~= ss.subrange(0, j) + seq![x] + ss.subrange(j, ss.len() as int),
    decreases j,
{
    if j == 0 {
        if ss.len() == 0 {
            assert(ss.subrange(0, 0) =~= Seq::<Seq<char>>::empty());
        }
    } else {
        let rest = ss.drop_first();
        assert forall|k: int| 0 <= k < j - 1 implies !chars_le(x, #[trigger] rest[k]) by {
            assert(rest[k] == ss[k + 1]);
        }
        assert(j - 1 < rest.len() ==> chars_le(x, rest[j - 1]));
        lemma_insert_sorted_at(x, rest, j - 1);
        assert(seq![ss[0]] + (rest.subrange(0, j - 1) + seq![x] + rest.subrange(
            j - 1,
            rest.len() as int,
        )) =~~= ss.subrange(0, j) + seq![x] + ss.subrange(j, ss.len() as int));
    }
}

/// Insert a token into a sorted accumulator.
fn insert_tok(acc: Vec<Vec<char>>, x: Vec<char>) -> (r: Vec<Vec<char>>)
    ensures
        toks_view(r@) == insert_sorted(x@, toks_view(acc@)),
{
    let mut acc = acc;
    let mut j: usize = 0;
    while j < acc.len() && !chars_le_exec(&x, &acc[j])
        invariant
            0 <= j <= acc@.len(),
            forall|k: int| 0 <= k < j ==> !chars_le(x@, #[trigger] toks_view(acc@)[k]),
        decreases acc@.len() - j,
    {
        j = j + 1;
    }
    proof {
        lemma_insert_sorted_at(x@, toks_view(acc@), j as int);
    }
    let ghost old_acc = acc@;
    acc.insert(j, x);
    proof {
        assert(toks_view(acc@) =~~= toks_view(old_acc).subrange(0, j as int) + seq![x@]
            + toks_view(old_acc).subrange(j as int, toks_view(old_acc).len() as int)) by {
            assert(acc@ == old_acc.insert(j as int, x));
        }
    }
    acc
}

/// Sort the modifier tokens lexicographically.
fn sort_toks(ts: Vec<Vec<char>>) -> (r: Vec<Vec<char>>)
    ensures
        toks_view(r@) == sort_tokens(toks_view(ts@)),
{
    let ghost whole = toks_view(ts@);
    let mut ts = ts;
    let mut acc: Vec<Vec<char>> = Vec::new();
    proof {
        assert(whole.subrange(0, ts@.len() as int) =~~= toks_view(ts@));
        assert(whole.skip(ts@.len() as int) =~= Seq::<Seq<char>>::empty());
        assert(toks_view(acc@) =~~= sort_tokens(whole.skip(ts@.len() as int)));
    }
    while ts.len() > 0
        invariant
            ts@.len() <= whole.len(),
            toks_view(ts@) =~~= whole.subrange(0, ts@.len() as int),
            toks_view(acc@) == sort_tokens(whole.skip(ts@.len() as int)),
        decreases ts@.len(),
    {
        let ghost n = ts@.len() as int;
        let ghost ts_old = ts@;
        let x = match ts.pop() {
            Some(x) => x,
            None => {
                proof {
                    assert(false);
                }
                Vec::new()
            },
        };
        proof {
            assert(toks_view(ts_old)[n - 1] == ts_old[n - 1]@);
            assert(x@ == whole.subrange(0, n)[n - 1]);
            assert(x@ == whole[n - 1]);
            assert(ts@ == ts_old.subrange(0, n - 1));
            assert(toks_view(ts@) =~~= whole.subrange(0, n - 1));
            let suf = whole.skip(n - 1);
            assert(suf[0] == whole[n - 1]);
            assert(suf.drop_first() =~= whole.skip(n));
        }
        acc = insert_tok(acc, x);
    }
    proof {
        assert(whole.skip(0) =~= whole);
    }
    acc
}

/// Join tokens with `+` between them.
fn join_toks(ts: &Vec<Vec<char>>) -> (v: Vec<char>)
    ensures
        v@ == join_plus(toks_view(ts@)),
{
    let mut v: Vec<char> = Vec::new();
    let mut i: usize = 0;
    while i < ts.len()
        invariant
            0 <= i <= ts@.len(),
            v@ == join_plus(toks_view(ts@).subrange(0, i as int)),
        decreases ts@.len() - i,
    {
        if i > 0 {
            v.push('+');
        }
        let mut k: usize = 0;
        let ghost mid = v@;
        while k < ts[i].len()
            invariant
                0 <= i < ts@.len(),
                0 <= k <= ts@[i as int]@.len(),
                v@ == mid + ts@[i as int]@.subrange(0, k as int),
            decreases ts@[i as int]@.len() - k,
        {
            let c = ts[i][k];
            v.push(c);
            k = k + 1;
            proof {
                assert(v@ =~= mid + ts@[i as int]@.subrange(0, k as int));
            }
        }
        proof {
            lemma_join_take_step(toks_view(ts@), i as int);
            assert(ts@[i as int]@.subrange(0, ts@[i as int]@.len() as int) =~= ts@[i as int]@);
            assert(mid + ts@[i as int]@ =~= join_plus(toks_view(ts@).subrange(0, i as int + 1)));
        }
        i = i + 1;
    }
    proof {
        assert(toks_view(ts@).subrange(0, ts@.len() as int) =~= toks_view(ts@));
    }
    v
}

/// One forward step of joining: the join of the first `i + 1` tokens.
proof fn lemma_join_take_step(ss: Seq<Seq<char>>, i: int)
    requires
        0 <= i < ss.len(),
    ensures
        i == 0 ==> join_plus(ss.subrange(0, 1)) == ss[0],
        i > 0 ==> join_plus(ss.subrange(0, i + 1)) == join_plus(ss.subrange(0, i)) + seq!['+']
            + ss[i],
    decreases i,
{
    if i == 0 {
        assert(join_plus(ss.subrange(0, 1)) == ss.subrange(0, 1)[0]);
    } else {
        lemma_join_push(ss.subrange(0, i), ss[i]);
        assert(ss.subrange(0, i).push(ss[i]) =~= ss.subrange(0, i + 1));
    }
}

/// Joining after appending one more token appends `+` and the token.
proof fn lemma_join_push(ss: Seq<Seq<char>>, t: Seq<char>)
    requires
        ss.len() >= 1,
    ensures
        join_plus(ss.push(t)) == join_plus(ss) + seq!['+'] + t,
    decreases ss.len(),
{
    if ss.len() == 1 {
        let p = ss.push(t);
        assert(p[0] == ss[0]);
        assert(p.drop_first() =~= seq![t]);
        assert(join_plus(p.drop_first()) == t);
    } else {
        lemma_join_push(ss.drop_first(), t);
        let p = ss.push(t);
        assert(p[0] == ss[0]);
        assert(p.drop_first() =~= ss.drop_first().push(t));
        assert(join_plus(p) == p[0] + seq!['+'] + join_plus(ss.drop_first().push(t)));
        assert(ss[0] + seq!['+'] + (join_plus(ss.drop_first()) + seq!['+'] + t) =~= (ss[0]
            + seq!['+'] + join_plus(ss.drop_first())) + seq!['+'] + t);
    }
}

/// Canonicalize a whole token vector.
fn canon_all(ts: &Vec<Vec<char>>) -> (r: Vec<Vec<char>>)
    ensures
        toks_view(r@) == canon_map(toks_view(ts@)),
{
    let mut r: Vec<Vec<char>> = Vec::new();
    let mut i: usize = 0;
    while i < ts.len()
        invariant
            0 <= i <= ts@.len(),
            toks_view(r@) =~~= canon_map(toks_view(ts@).subrange(0, i as int)),
        decreases ts@.len() - i,
    {
        let ghost r_old = r@;
        let c = canon_vec(&ts[i]);
        r.push(c);
        i = i + 1;
        proof {
            assert(c@ == canon_token(ts@[i - 1]@));
            assert(toks_view(r_old).len() == r_old.len());
            assert(toks_view(r_old).len() == canon_map(toks_view(ts@).subrange(0, i - 1)).len());
            assert(canon_map(toks_view(ts@).subrange(0, i - 1)).len() == i - 1);
            assert(r@ == r_old.push(c));
            assert(r@.len() == i as int);
            assert(toks_view(r@).len() == i as int);
            assert forall|j: int| 0 <= j < i implies toks_view(r@)[j] == canon_map(
                toks_view(ts@).subrange(0, i as int),
            )[j] by {
                assert(canon_map(toks_view(ts@).subrange(0, i as int))[j] == canon_token(
                    toks_view(ts@).subrange(0, i as int)[j],
                ));
                if j < i - 1 {
                    assert(toks_view(r@)[j] == toks_view(r_old)[j]);
                    assert(toks_view(r_old)[j] == canon_map(
                        toks_view(ts@).subrange(0, i - 1),
                    )[j]);
                    assert(canon_map(toks_view(ts@).subrange(0, i - 1))[j] == canon_token(
                        toks_view(ts@).subrange(0, i - 1)[j],
                    ));
                } else {
                    assert(toks_view(r@)[j] == c@);
                }
            }
            assert(toks_view(r@) =~~= canon_map(toks_view(ts@).subrange(0, i as int)));
        }
    }
    proof {
        assert(toks_view(ts@).subrange(0, ts@.len() as int) =~= toks_view(ts@));
    }
    r
}

/// The canonical tokens of a spelling, for callers that look at the
/// modifiers and the key separately.  There is always at least one token.
pub fn canon_tokens(s: &str) -> (r: Vec<Vec<char>>)
    ensures
        toks_view(r@) == canon_tokens_of(s@),
        r@.len() >= 1,
{
    let cs = char_vec_of(s);
    let low = lower_vec(&cs);
    let ts = split_vec(&low);
    let cts = canon_all(&ts);
    proof {
        lemma_split_plus_len(low@);
        assert(toks_view(cts@) == canon_tokens_of(s@));
        assert(toks_view(cts@).len() == cts@.len());
    }
    cts
}

/// Compute the canonical form of a shortcut spelling.
///
/// The result is lower-cased, has `key` prefixes stripped from the key name,
/// folds the `commandorcontrol`, `cmd` and `command` aliases into `control`,
/// and lists the modifiers sorted before the key.
pub fn normalize(s: &str) -> (r: String)
    ensures
        r@ == norm_spec(s@),
{
    let mut cts = canon_tokens(s);
    proof {
        assert(toks_view(cts@) == canon_tokens_of(s@));
    }
    let key = match cts.pop() {
        Some(k) => k,
        None => {
            proof {
                assert(false);
            }
            Vec::new()
        },
    };
    proof {
        assert(key@ == canon_tokens_of(s@).last());
        assert(toks_view(cts@) =~~= canon_tokens_of(s@).drop_last());
    }
    let mut sorted = sort_toks(cts);
    sorted.push(key);
    proof {
        assert(toks_view(sorted@) =~~= normal_tokens(s@));
    }
    let joined = join_toks(&sorted);
    chars_to_string(&joined)
}

/// Whether two spellings denote the same key combination.
pub fn shortcuts_match(actual: &str, registered: &str) -> (r: bool)
    ensures
        r == (norm_spec(actual@) == norm_spec(registered@)),
{
    let na = normalize(actual);
    let nr = normalize(registered);
    na == nr
}

/// Character-for-character equality of two string slices.
pub fn str_eq(a: &str, b: &str) -> (r: bool)
    ensures
        r == (a@ == b@),
{
    let na = a.unicode_len();
    let nb = b.unicode_len();
    if na != nb {
        return false;
    }
    let mut i: usize = 0;
    while i < na
        invariant
            na == a@.len(),
            na == b@.len(),
            0 <= i <= na,
            forall|j: int| 0 <= j < i ==> a@[j] == b@[j],
        decreases na - i,
    {
        if a.get_char(i) != b.get_char(i) {
            return false;
        }
        i = i + 1;
    }
    proof {
        assert(a@ =~= b@);
    }
    true
}

/// Element-for-element equality of two token vectors.
pub fn chars_eq(a: &Vec<char>, b: &Vec<char>) -> (r: bool)
    ensures
        r == (a@ == b@),
{
    if a.len() != b.len() {
        return false;
    }
    let mut i: usize = 0;
    while i < a.len()
        invariant
            a@.len() == b@.len(),
            0 <= i <= a@.len(),
            forall|j: int| 0 <= j < i ==> a@[j] == b@[j],
        decreases a@.len() - i,
    {
        if a[i] != b[i] {
            return false;
        }
        i = i + 1;
    }
    proof {
        assert(a@ =~= b@);
    }
    true
}

/// Normalization is insensitive to the order the modifiers are written in:
/// two spellings whose canonical modifiers agree as a multiset and whose
/// canonical keys agree normalize to the same string.
pub proof fn lemma_normalize_order_insensitive(a: Seq<char>, b: Seq<char>)
    requires
        canon_tokens_of(a).drop_last().to_multiset() == canon_tokens_of(
            b,
        ).drop_last().to_multiset(),
        canon_tokens_of(a).last() == canon_tokens_of(b).last(),
    ensures
        norm_spec(a) == norm_spec(b),
{
    lemma_sort_tokens_permutation(canon_tokens_of(a).drop_last(), canon_tokens_of(b).drop_last());
    assert(normal_tokens(a) == normal_tokens(b));
}

} // verus!
