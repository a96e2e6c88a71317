use vstd::prelude::*;
use crate::text::{digit_val, is_digit, lower_char};

verus! {

/// A performance-modifier flag of the query grammar.
#[derive(Debug, Clone, Copy, PartialEq, Eq, Structural)]
pub enum Modifier {
    Speed,
    Fuel,
    Co2,
    FourX,
}

/// The parsed bracketed suffix of a query: an engine-variant index
/// (a single decimal digit, 0 when absent) and the set of toggled
/// performance flags. Duplicate flags collapse.
#[derive(Debug, Clone, Copy, PartialEq, Eq, Structural)]
pub struct ModifierClause {
    pub engine: u8,
    pub speed: bool,
    pub fuel: bool,
    pub co2: bool,
    pub fourx: bool,
}

/// The clause an absent (or empty) modifier list denotes: engine
/// variant 0, no flags.
pub open spec fn default_clause() -> ModifierClause {
    ModifierClause { engine: 0, speed: false, fuel: false, co2: false, fourx: false }
}

impl ModifierClause {
    pub fn new() -> (r: ModifierClause)
        ensures
            r == default_clause(),
    {
        ModifierClause { engine: 0, speed: false, fuel: false, co2: false, fourx: false }
    }

    /// Whether the clause toggles the given flag.
    pub fn contains(&self, m: Modifier) -> (r: bool)
        ensures
            r == (match m {
                Modifier::Speed => self.speed,
                Modifier::Fuel => self.fuel,
                Modifier::Co2 => self.co2,
                Modifier::FourX => self.fourx,
            }),
    {
        match m {
            Modifier::Speed => self.speed,
            Modifier::Fuel => self.fuel,
            Modifier::Co2 => self.co2,
            Modifier::FourX => self.fourx,
        }
    }
}

impl Default for ModifierClause {
    fn default() -> (r: ModifierClause)
        ensures
            r == default_clause(),
    {
        ModifierClause::new()
    }
}

/// Commas and ASCII whitespace separate modifier tokens and carry no
/// meaning of their own.
pub open spec fn is_sep(c: char) -> bool {
    c == ',' || c == ' ' || c == '\t' || c == '\n' || c == '\r'
}

/// One step per character over the inside of a modifier clause:
/// separators are skipped, the first digit picks the engine variant,
/// a second digit is an error, `s`/`f`/`c`/`x` (case-insensitive)
/// toggle flags, anything else is an error.
pub open spec fn parse_flags(s: Seq<char>, acc: ModifierClause, seen_engine: bool) -> Option<
    ModifierClause,
>
    decreases s.len(),
{
    if s.len() == 0 {
        Some(acc)
    } else {
        let c = lower_char(s[0]);
        let rest = s.drop_first();
        if is_sep(c) {
            parse_flags(rest, acc, seen_engine)
        } else if is_digit(c) {
            if seen_engine {
                None
            } else {
                parse_flags(rest, ModifierClause { engine: digit_val(c) as u8, ..acc }, true)
            }
        } else if c == 's' {
            parse_flags(rest, ModifierClause { speed: true, ..acc }, seen_engine)
        } else if c == 'f' {
            parse_flags(rest, ModifierClause { fuel: true, ..acc }, seen_engine)
        } else if c == 'c' {
            parse_flags(rest, ModifierClause { co2: true, ..acc }, seen_engine)
        } else if c == 'x' {
            parse_flags(rest, ModifierClause { fourx: true, ..acc }, seen_engine)
        } else {
            None
        }
    }
}

/// What the text between `[` and `]` denotes, if it is well-formed.
pub open spec fn parse_clause_spec(s: Seq<char>) -> Option<ModifierClause> {
    parse_flags(s, default_clause(), false)
}

/// Parse the characters of `s` between positions `lo` and `hi` as the
/// inside of a modifier clause.
pub fn parse_clause_range(s: &str, lo: usize, hi: usize) -> (r: Option<ModifierClause>)
    requires
        lo <= hi <= s@.len(),
    ensures
        r == parse_clause_spec(s@.subrange(lo as int, hi as int)),
{
    let whole = Ghost(s@.subrange(lo as int, hi as int));
    let mut acc = ModifierClause::new();
    let mut seen_engine = false;
    let mut i: usize = lo;
    while i < hi
        invariant
            lo <= i <= hi <= s@.len(),
            whole@ == s@.subrange(lo as int, hi as int),
            parse_clause_spec(whole@) == parse_flags(
                s@.subrange(i as int, hi as int),
                acc,
                seen_engine,
            ),
        decreases hi - i,
    {
        proof {
            assert(s@.subrange(i as int, hi as int).drop_first() =~= s@.subrange(
                i + 1,
                hi as int,
            ));
            assert(s@.subrange(i as int, hi as int)[0] == s@[i as int]);
        }
        let c = crate::text::lower_char_ex(s.get_char(i));
        if c == ',' || c == ' ' || c == '\t' || c == '\n' || c == '\r' {
            // separator: nothing to do
        } else if '0' <= c && c <= '9' {
            if seen_engine {
                return None;
            }
            acc.engine = (c as u32 - 48) as u8;
            seen_engine = true;
        } else if c == 's' {
            acc.speed = true;
        } else if c == 'f' {
            acc.fuel = true;
        } else if c == 'c' {
            acc.co2 = true;
        } else if c == 'x' {
            acc.fourx = true;
        } else {
            return None;
        }
        i += 1;
    }
    assert(s@.subrange(i as int, hi as int) =~= Seq::<char>::empty());
    Some(acc)
}

/// Strip the separator characters out of a clause body, keeping the
/// order of everything else.
pub open spec fn strip_seps(s: Seq<char>) -> Seq<char>
    decreases s.len(),
{
    if s.len() == 0 {
        s
    } else if is_sep(s[0]) {
        strip_seps(s.drop_first())
    } else {
        seq![s[0]] + strip_seps(s.drop_first())
    }
}

pub proof fn lemma_parse_flags_strip(s: Seq<char>, acc: ModifierClause, seen_engine: bool)
    ensures
        parse_flags(s, acc, seen_engine) == parse_flags(strip_seps(s), acc, seen_engine),
    decreases s.len(),
{
    if s.len() == 0 {
    } else {
        let c = lower_char(s[0]);
        let rest = s.drop_first();
        if is_sep(s[0]) {
            assert(is_sep(c));
            lemma_parse_flags_strip(rest, acc, seen_engine);
        } else {
            assert(!is_sep(c));
            let t = seq![s[0]] + strip_seps(rest);
            assert(t.len() > 0);
            assert(t[0] == s[0]);
            assert(t.drop_first() =~= strip_seps(rest));
            if is_digit(c) {
                if !seen_engine {
                    lemma_parse_flags_strip(
                        rest,
                        ModifierClause { engine: digit_val(c) as u8, ..acc },
                        true,
                    );
                }
            } else if c == 's' {
                lemma_parse_flags_strip(rest, ModifierClause { speed: true, ..acc }, seen_engine);
            } else if c == 'f' {
                lemma_parse_flags_strip(rest, ModifierClause { fuel: true, ..acc }, seen_engine);
            } else if c == 'c' {
                lemma_parse_flags_strip(rest, ModifierClause { co2: true, ..acc }, seen_engine);
            } else if c == 'x' {
                lemma_parse_flags_strip(rest, ModifierClause { fourx: true, ..acc }, seen_engine);
            }
        }
    }
}

/// Separators are immaterial: two clause bodies that agree once
/// commas and whitespace are stripped parse to the same clause.
pub proof fn lemma_clause_separators_immaterial(a: Seq<char>, b: Seq<char>)
    requires
        strip_seps(a) == strip_seps(b),
    ensures
        parse_clause_spec(a) == parse_clause_spec(b),
{
    lemma_parse_flags_strip(a, default_clause(), false);
    lemma_parse_flags_strip(b, default_clause(), false);
}

} // verus!
