use vstd::prelude::*;
use crate::modifier::{default_clause, parse_clause_spec, parse_clause_range, ModifierClause};
verus! {

/// A typed failure of resolution or suggestion.
#[derive(Debug, Clone, Copy, PartialEq, Eq, Structural)]
pub enum SearchError {
    /// Identifier token with trailing non-digits, or beyond 16 bits.
    InvalidId,
    /// Unrecognized character in a modifier clause, or a second
    /// engine-variant digit, or an unterminated clause.
    InvalidModifier,
    /// No catalog record matches the selector.
    NotFound,
    /// The matched airframe has no record for the requested variant.
    InvalidEngineVariant,
    /// No candidate clears the similarity threshold.
    NoSuggestion,
}

/// Which lookup mode the selector names.
#[derive(Debug, Clone, Copy, PartialEq, Eq, Structural)]
pub enum QueryKind {
    /// `id:<digits>` - exact airframe-identifier lookup.
    Id,
    /// `shortname:<token>` - exact short-code lookup.
    ShortName,
    /// `name:<token>` - exact display-name lookup.
    Name,
    /// Unprefixed token: identifier attempt if all digits, else
    /// short-code-then-name lookup.
    Any,
}

/// Position of the first `[` in `s`, or `s.len()` if there is none.
pub open spec fn find_open(s: Seq<char>) -> int
    decreases s.len(),
{
    if s.len() == 0 {
        0
    } else if s[0] == '[' {
        0
    } else {
        1 + find_open(s.drop_first())
    }
}

pub proof fn lemma_find_open(s: Seq<char>)
    ensures
        0 <= find_open(s) <= s.len(),
        find_open(s) < s.len() ==> s[find_open(s)] == '[',
        forall|k: int| 0 <= k < find_open(s) ==> s[k] != '[',
    decreases s.len(),
{
    if s.len() > 0 && s[0] != '[' {
        lemma_find_open(s.drop_first());
        assert(forall|k: int| 0 <= k < find_open(s.drop_first()) ==> s.drop_first()[k] != '[');
        assert(forall|k: int| 1 <= k < find_open(s) ==> s[k] == s.drop_first()[k - 1]);
    }
}

/// `find_open` is pinned by its characterization: the first `[` sits
/// at `j` exactly when `s[j]` is `[` and nothing before it is.
pub proof fn lemma_find_open_at(s: Seq<char>, j: int)
    requires
        0 <= j <= s.len(),
        j < s.len() ==> s[j] == '[',
        forall|k: int| 0 <= k < j ==> s[k] != '[',
        j == s.len() ==> forall|k: int| 0 <= k < s.len() ==> s[k] != '[',
    ensures
        find_open(s) == j,
    decreases s.len(),
{
    if s.len() > 0 && s[0] != '[' {
        assert(j >= 1);
        let t = s.drop_first();
        assert(forall|k: int| 0 <= k < j - 1 ==> t[k] == s[k + 1] && s[k + 1] != '[');
        if j == s.len() {
            assert(forall|k: int| 0 <= k < t.len() ==> t[k] == s[k + 1] && s[k + 1] != '[');
        }
        lemma_find_open_at(t, j - 1);
    }
}

pub fn find_open_ex(s: &str) -> (r: usize)
    ensures
        r == find_open(s@),
        r <= s@.len(),
{
    let n = s.unicode_len();
    let mut i: usize = 0;
    assert(s@.skip(0) =~= s@);
    while i < n
        invariant
            0 <= i <= n,
            n == s@.len(),
            find_open(s@) == i + find_open(s@.skip(i as int)),
        decreases n - i,
    {
        proof {
            assert(s@.skip(i as int)[0] == s@[i as int]);
            assert(s@.skip(i as int).drop_first() =~= s@.skip(i + 1));
        }
        if s.get_char(i) == '[' {
            return i;
        }
        i += 1;
    }
    assert(s@.skip(n as int) =~= Seq::<char>::empty());
    proof {
        lemma_find_open(s@);
    }
    n
}

/// The selector starts with the literal prefix `id:`.
pub open spec fn has_id_prefix(s: Seq<char>) -> bool {
    &&& s.len() >= 3
    &&& s[0] == 'i'
    &&& s[1] == 'd'
    &&& s[2] == ':'
}

/// The selector starts with the literal prefix `shortname:`.
pub open spec fn has_shortname_prefix(s: Seq<char>) -> bool {
    &&& s.len() >= 10
    &&& s[0] == 's'
    &&& s[1] == 'h'
    &&& s[2] == 'o'
    &&& s[3] == 'r'
    &&& s[4] == 't'
    &&& s[5] == 'n'
    &&& s[6] == 'a'
    &&& s[7] == 'm'
    &&& s[8] == 'e'
    &&& s[9] == ':'
}

/// The selector starts with the literal prefix `name:`.
pub open spec fn has_name_prefix(s: Seq<char>) -> bool {
    &&& s.len() >= 5
    &&& s[0] == 'n'
    &&& s[1] == 'a'
    &&& s[2] == 'm'
    &&& s[3] == 'e'
    &&& s[4] == ':'
}

/// Split a selector into its lookup mode and its raw token.
pub open spec fn split_selector(s: Seq<char>) -> (QueryKind, Seq<char>) {
    if has_id_prefix(s) {
        (QueryKind::Id, s.skip(3))
    } else if has_shortname_prefix(s) {
        (QueryKind::ShortName, s.skip(10))
    } else if has_name_prefix(s) {
        (QueryKind::Name, s.skip(5))
    } else {
        (QueryKind::Any, s)
    }
}

/// The whole query grammar: a selector, optionally followed by a
/// bracketed modifier clause that must close at the end of the text.
pub open spec fn spec_parse(q: Seq<char>) -> Result<
    (QueryKind, Seq<char>, ModifierClause),
    SearchError,
> {
    let o = find_open(q);
    if o == q.len() {
        let kt = split_selector(q);
        Ok((kt.0, kt.1, default_clause()))
    } else if q.len() > 0 && q.last() == ']' {
        match parse_clause_spec(q.subrange(o + 1, q.len() - 1)) {
            Some(mc) => {
                let kt = split_selector(q.take(o));
                Ok((kt.0, kt.1, mc))
            },
            None => Err(SearchError::InvalidModifier),
        }
    } else {
        Err(SearchError::InvalidModifier)
    }
}

/// The token a suggestion run compares against the catalog: the
/// selector with its prefix stripped and any modifier clause removed.
pub open spec fn suggest_token(q: Seq<char>) -> Seq<char> {
    split_selector(q.take(find_open(q))).1
}

/// A parsed query: lookup mode, raw selector token, modifier clause.
#[derive(Debug, Clone, Copy)]
pub struct ParsedQuery<'a> {
    pub kind: QueryKind,
    pub token: &'a str,
    pub mods: ModifierClause,
}

/// Cut the selector out of `q` (everything before `o`) and classify
/// its prefix.
fn split_selector_ex<'a>(q: &'a str, o: usize) -> (r: (QueryKind, &'a str))
    requires
        o <= q@.len(),
    ensures
        r.0 == split_selector(q@.take(o as int)).0,
        r.1@ == split_selector(q@.take(o as int)).1,
{
    let ghost sel = q@.take(o as int);
    proof {
        assert(forall|k: int| 0 <= k < o ==> sel[k] == q@[k]);
    }
    if o >= 3 && q.get_char(0) == 'i' && q.get_char(1) == 'd' && q.get_char(2) == ':' {
        assert(has_id_prefix(sel));
        let t = q.substring_char(3, o);
        assert(t@ =~= sel.skip(3));
        (QueryKind::Id, t)
    } else if o >= 10 && q.get_char(0) == 's' && q.get_char(1) == 'h' && q.get_char(2) == 'o'
        && q.get_char(3) == 'r' && q.get_char(4) == 't' && q.get_char(5) == 'n'
        && q.get_char(6) == 'a' && q.get_char(7) == 'm' && q.get_char(8) == 'e'
        && q.get_char(9) == ':' {
        assert(!has_id_prefix(sel));
        assert(has_shortname_prefix(sel));
        let t = q.substring_char(10, o);
        assert(t@ =~= sel.skip(10));
        (QueryKind::ShortName, t)
    } else if o >= 5 && q.get_char(0) == 'n' && q.get_char(1) == 'a' && q.get_char(2) == 'm'
        && q.get_char(3) == 'e' && q.get_char(4) == ':' {
        assert(!has_id_prefix(sel));
        assert(!has_shortname_prefix(sel));
        assert(has_name_prefix(sel));
        let t = q.substring_char(5, o);
        assert(t@ =~= sel.skip(5));
        (QueryKind::Name, t)
    } else {
        assert(!has_id_prefix(sel));
        assert(!has_shortname_prefix(sel));
        assert(!has_name_prefix(sel));
        let t = q.substring_char(0, o);
        assert(t@ =~= sel);
        (QueryKind::Any, t)
    }
}

/// The raw selector token of a query, prefix and clause stripped,
/// whether or not the clause (or the query as a whole) is well formed.
pub fn selector_token<'a>(q: &'a str) -> (r: &'a str)
    ensures
        r@ == suggest_token(q@),
{
    let o = find_open_ex(q);
    let (_, tok) = split_selector_ex(q, o);
    tok
}

/// Parse a raw query into selector and modifier clause.
pub fn parse_query<'a>(q: &'a str) -> (r: Result<ParsedQuery<'a>, SearchError>)
    ensures
        (match spec_parse(q@) {
            Ok(t) => r matches Ok(p) && p.kind == t.0 && p.token@ == t.1 && p.mods == t.2,
            Err(e) => r == Err::<ParsedQuery<'a>, SearchError>(e),
        }),
{
    let n = q.unicode_len();
    let o = find_open_ex(q);
    proof {
        lemma_find_open(q@);
    }
    if o == n {
        let (kind, token) = split_selector_ex(q, o);
        assert(q@.take(n as int) =~= q@);
        Ok(ParsedQuery { kind, token, mods: ModifierClause::new() })
    } else {
        assert(q@[o as int] == '[');
        if q.get_char(n - 1) == ']' {
            assert(o != n - 1);
            match parse_clause_range(q, o + 1, n - 1) {
                Some(mc) => {
                    let (kind, token) = split_selector_ex(q, o);
                    Ok(ParsedQuery { kind, token, mods: mc })
                },
                None => Err(SearchError::InvalidModifier),
            }
        } else {
            Err(SearchError::InvalidModifier)
        }
    }
}

} // verus!
