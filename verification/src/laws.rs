use vstd::prelude::*;
use crate::aircraft::{apply_spec, wf_aircraft, Aircraft, MAX_STAT};
use crate::catalog::{spec_search, variant_index};
use crate::modifier::{default_clause, parse_flags, ModifierClause};
use crate::query::{has_id_prefix, lemma_find_open_at, split_selector, SearchError};
use crate::text::{all_digits, digit_val, digits_val, is_digit, lower_char};

verus! {

/// The first record of an airframe is its engine variant 0.
pub proof fn lemma_variant_index_first(c: Seq<Aircraft>, id: u16, i: int)
    requires
        0 <= i < c.len(),
        c[i].id == id,
        forall|j: int| 0 <= j < i ==> (#[trigger] c[j]).id != id,
    ensures
        variant_index(c, id, 0) == Some(i),
    decreases i,
{
    if i > 0 {
        assert(c[0].id != id);
        assert(forall|j: int| 0 <= j < i - 1 ==> (#[trigger] c.drop_first()[j]) == c[j + 1]);
        lemma_variant_index_first(c.drop_first(), id, i - 1);
    }
}

/// For every airframe identifier present in the catalog, a query of
/// the shape `id:<digits>` denoting that identifier resolves to the
/// airframe's first record - its engine variant 0 - with the default
/// clause.
pub proof fn lemma_search_by_id(c: Seq<Aircraft>, ds: Seq<char>, i: int)
    requires
        ds.len() > 0,
        all_digits(ds),
        digits_val(ds) <= 0xffff,
        0 <= i < c.len(),
        c[i].id == digits_val(ds),
        forall|j: int| 0 <= j < i ==> (#[trigger] c[j]).id != c[i].id,
    ensures
        spec_search(c, seq!['i', 'd', ':'] + ds) == Ok::<(int, ModifierClause), SearchError>(
            (i, default_clause()),
        ),
{
    let q = seq!['i', 'd', ':'] + ds;
    assert forall|k: int| 0 <= k < q.len() implies q[k] != '[' by {
        if k >= 3 {
            assert(q[k] == ds[k - 3]);
            assert(is_digit(ds[k - 3]));
        }
    }
    lemma_find_open_at(q, q.len() as int);
    assert(has_id_prefix(q));
    assert(q.skip(3) =~= ds);
    assert(split_selector(q).1 == ds);
    lemma_variant_index_first(c, c[i].id, i);
}

/// The ASCII digit character denoting `d`.
pub open spec fn digit_char(d: int) -> char {
    ((d + 48) as u8) as char
}

/// The canonical decimal spelling of `n`, most significant digit first.
pub open spec fn dec_digits(n: nat) -> Seq<char>
    decreases n,
{
    if n < 10 {
        seq![digit_char(n as int)]
    } else {
        dec_digits(n / 10).push(digit_char((n % 10) as int))
    }
}

/// Rendering a number in decimal and reading the digits back yields
/// the number: the spelling is non-empty, all digits, and denotes `n`.
pub proof fn lemma_dec_digits_roundtrip(n: nat)
    ensures
        dec_digits(n).len() > 0,
        all_digits(dec_digits(n)),
        digits_val(dec_digits(n)) == n,
    decreases n,
{
    if n < 10 {
        assert(digit_char(n as int) as int == n + 48);
        assert(digit_val(digit_char(n as int)) == n);
        assert(is_digit(digit_char(n as int)));
        assert(dec_digits(n).drop_last() =~= Seq::<char>::empty());
        assert(digits_val(Seq::<char>::empty()) == 0);
        assert(digits_val(dec_digits(n)) == digit_val(dec_digits(n).last()));
    } else {
        lemma_dec_digits_roundtrip(n / 10);
        let s = dec_digits(n);
        assert(s.drop_last() =~= dec_digits(n / 10));
        assert(s.last() == digit_char((n % 10) as int));
        assert(is_digit(digit_char((n % 10) as int)));
        assert forall|k: int| 0 <= k < s.len() implies is_digit(#[trigger] s[k]) by {
            if k < s.len() - 1 {
                assert(s[k] == dec_digits(n / 10)[k]);
            }
        }
        assert(digit_char((n % 10) as int) as int == n % 10 + 48);
        assert(digit_val(digit_char((n % 10) as int)) == n % 10);
        assert(digits_val(s) == (n / 10) * 10 + (n % 10));
        vstd::arithmetic::div_mod::lemma_fundamental_div_mod(n as int, 10);
    }
}

/// For every airframe identifier present in the catalog, the query
/// `id:<id>` with the identifier's own decimal spelling resolves to
/// the airframe's first record with the default clause.
pub proof fn lemma_search_by_canonical_id(c: Seq<Aircraft>, i: int)
    requires
        0 <= i < c.len(),
        forall|j: int| 0 <= j < i ==> (#[trigger] c[j]).id != c[i].id,
    ensures
        spec_search(c, seq!['i', 'd', ':'] + dec_digits(c[i].id as nat)) == Ok::<
            (int, ModifierClause),
            SearchError,
        >((i, default_clause())),
{
    lemma_dec_digits_roundtrip(c[i].id as nat);
    lemma_search_by_id(c, dec_digits(c[i].id as nat), i);
}

/// An explicit `[0]` clause on a clauseless query changes nothing:
/// engine variant 0 with no flags is exactly the default.
pub proof fn lemma_explicit_default_clause(c: Seq<Aircraft>, q: Seq<char>)
    requires
        !q.contains('['),
    ensures
        spec_search(c, q + seq!['[', '0', ']']) == spec_search(c, q),
{
    let q2 = q + seq!['[', '0', ']'];
    assert forall|k: int| 0 <= k < q.len() implies q2[k] == q[k] && q[k] != '[' by {
        if q[k] == '[' {
            assert(q.contains('['));
        }
    }
    assert forall|k: int| 0 <= k < q.len() implies q[k] != '[' by {
        if q[k] == '[' {
            assert(q.contains('['));
        }
    }
    lemma_find_open_at(q, q.len() as int);
    assert(q2[q.len() as int] == '[');
    lemma_find_open_at(q2, q.len() as int);
    assert(q2.last() == ']');
    let inner = q2.subrange(q.len() as int + 1, q2.len() - 1);
    assert(inner =~= seq!['0']);
    assert(parse_flags(inner, default_clause(), false) == Some(default_clause())) by {
        let acc1 = ModifierClause { engine: 0, ..default_clause() };
        assert(inner.len() == 1 && inner[0] == '0');
        assert(!crate::modifier::is_sep(lower_char('0')));
        assert(is_digit(lower_char('0')));
        assert(crate::text::digit_val('0') == 0);
        assert(inner.drop_first() =~= Seq::<char>::empty());
        assert(parse_flags(inner.drop_first(), acc1, true) == Some(acc1));
        assert(parse_flags(inner, default_clause(), false) == Some(acc1));
        assert(acc1 == default_clause());
    }
    assert(q2.take(q.len() as int) =~= q);
}

/// Suggestion is cross-field: the key a suggestion run scores the
/// catalog against is the bare token, whichever selector prefix the
/// query carried, so a short-code-prefixed query can surface a match
/// found via the name field and vice versa.
pub proof fn lemma_cross_suggestion(t: Seq<char>)
    requires
        !t.contains('['),
    ensures
        crate::catalog::suggest_key(
            seq!['s', 'h', 'o', 'r', 't', 'n', 'a', 'm', 'e', ':'] + t,
        ) == crate::text::lower_seq(t),
        crate::catalog::suggest_key(seq!['n', 'a', 'm', 'e', ':'] + t) == crate::text::lower_seq(
            t,
        ),
{
    let q1 = seq!['s', 'h', 'o', 'r', 't', 'n', 'a', 'm', 'e', ':'] + t;
    let q2 = seq!['n', 'a', 'm', 'e', ':'] + t;
    assert forall|k: int| 0 <= k < q1.len() implies q1[k] != '[' by {
        if k >= 10 {
            assert(q1[k] == t[k - 10]);
            if t[k - 10] == '[' {
                assert(t.contains('['));
            }
        }
    }
    assert forall|k: int| 0 <= k < q2.len() implies q2[k] != '[' by {
        if k >= 5 {
            assert(q2[k] == t[k - 5]);
            if t[k - 5] == '[' {
                assert(t.contains('['));
            }
        }
    }
    lemma_find_open_at(q1, q1.len() as int);
    lemma_find_open_at(q2, q2.len() as int);
    assert(q1.take(q1.len() as int) =~= q1);
    assert(q2.take(q2.len() as int) =~= q2);
    assert(!has_id_prefix(q1));
    assert(crate::query::has_shortname_prefix(q1));
    assert(q1.skip(10) =~= t);
    assert(!has_id_prefix(q2));
    assert(!crate::query::has_shortname_prefix(q2));
    assert(crate::query::has_name_prefix(q2));
    assert(q2.skip(5) =~= t);
}

/// With Speed, Fuel and Co2 set and FourX clear, the adjusted stats
/// are exactly 110% of the base speed and 90% of the base fuel and
/// CO2 rates (integer division).
pub proof fn lemma_modifier_ratios(a: Aircraft, m: ModifierClause)
    requires
        wf_aircraft(a),
        m.speed,
        m.fuel,
        m.co2,
        !m.fourx,
    ensures
        apply_spec(a, m).speed == a.speed * 110 / 100,
        apply_spec(a, m).fuel == a.fuel * 90 / 100,
        apply_spec(a, m).co2 == a.co2 * 90 / 100,
{
    let s = a.speed as int;
    assert(s * (110 * 100) == 100 * (s * 110)) by (nonlinear_arith);
    vstd::arithmetic::div_mod::lemma_div_multiples_vanish_quotient(100, s * 110, 100);
    assert(s * (110 * 100) / 10000 == s * 110 / 100);
    vstd::arithmetic::div_mod::lemma_div_pos_is_pos(s * 110, 100);
    vstd::arithmetic::div_mod::lemma_div_is_ordered(s * 110, MAX_STAT as int * 110, 100);
    let f = a.fuel as int;
    vstd::arithmetic::div_mod::lemma_div_pos_is_pos(f * 90, 100);
    vstd::arithmetic::div_mod::lemma_div_is_ordered(f * 90, MAX_STAT as int * 90, 100);
    let co = a.co2 as int;
    vstd::arithmetic::div_mod::lemma_div_pos_is_pos(co * 90, 100);
    vstd::arithmetic::div_mod::lemma_div_is_ordered(co * 90, MAX_STAT as int * 90, 100);
}

/// With only FourX set among the speed flags, the adjusted speed is
/// exactly four times the base speed.
pub proof fn lemma_fourx_exact(a: Aircraft, m: ModifierClause)
    requires
        wf_aircraft(a),
        !m.speed,
        m.fourx,
    ensures
        apply_spec(a, m).speed == a.speed * 4,
{
    let s = a.speed as int;
    assert(s * (100 * 400) == 10000 * (s * 4)) by (nonlinear_arith);
    vstd::arithmetic::div_mod::lemma_div_multiples_vanish(s * 4, 10000);
}

} // verus!
