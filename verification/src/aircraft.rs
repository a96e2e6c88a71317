use vstd::prelude::*;
use crate::modifier::ModifierClause;
use crate::text::lower_seq;

verus! {

/// Upper bound on a stored base stat (stats are held in hundredths of
/// a unit), so that multiplier arithmetic stays inside `u64`.
pub const MAX_STAT: u32 = 10_000_000;

/// One catalog row: an engine variant of an airframe. Stats are held
/// in hundredths of a unit (a fuel burn of 21.21 is stored as 2121).
#[derive(Debug, Clone)]
pub struct Aircraft {
    /// Airframe identifier, shared by all engine variants of one type.
    pub id: u16,
    /// Engine-variant identifier, unique per airframe.
    pub eid: u16,
    /// Canonical short code, already lowercase.
    pub shortname: String,
    /// Display name, free text.
    pub name: String,
    /// Cruise speed, hundredths.
    pub speed: u32,
    /// Fuel burn rate, hundredths.
    pub fuel: u32,
    /// CO2 rate, hundredths.
    pub co2: u32,
    /// Range, not touched by any modifier.
    pub range: u32,
}

/// What the catalog's upstream data source guarantees of every row:
/// a normalized short code and stats small enough to adjust exactly.
pub open spec fn wf_aircraft(a: Aircraft) -> bool {
    &&& a.speed <= MAX_STAT
    &&& a.fuel <= MAX_STAT
    &&& a.co2 <= MAX_STAT
    &&& lower_seq(a.shortname@) == a.shortname@
}

/// Field-wise equality of two records (strings compared by content).
pub open spec fn eq_rec(a: Aircraft, b: Aircraft) -> bool {
    &&& a.id == b.id
    &&& a.eid == b.eid
    &&& a.shortname@ == b.shortname@
    &&& a.name@ == b.name@
    &&& a.speed == b.speed
    &&& a.fuel == b.fuel
    &&& a.co2 == b.co2
    &&& a.range == b.range
}

/// Combined numerator of the speed multipliers, over a denominator of
/// 10000: Speed contributes x1.10 and FourX x4.00, composed
/// multiplicatively.
pub open spec fn speed_factor(m: ModifierClause) -> int {
    (if m.speed {
        110int
    } else {
        100int
    }) * (if m.fourx {
        400int
    } else {
        100int
    })
}

/// Numerator of the fuel multiplier over 100: Fuel contributes x0.90.
pub open spec fn fuel_factor(m: ModifierClause) -> int {
    if m.fuel {
        90int
    } else {
        100int
    }
}

/// Numerator of the CO2 multiplier over 100: Co2 contributes x0.90.
pub open spec fn co2_factor(m: ModifierClause) -> int {
    if m.co2 {
        90int
    } else {
        100int
    }
}

pub open spec fn adj_speed(s: u32, m: ModifierClause) -> int {
    s * speed_factor(m) / 10000
}

pub open spec fn adj_fuel(f: u32, m: ModifierClause) -> int {
    f * fuel_factor(m) / 100
}

pub open spec fn adj_co2(c: u32, m: ModifierClause) -> int {
    c * co2_factor(m) / 100
}

/// The record the modifier engine owes: the same identifiers and
/// names, the same range, and the three rates scaled exactly.
pub open spec fn apply_spec(a: Aircraft, m: ModifierClause) -> Aircraft {
    Aircraft {
        speed: adj_speed(a.speed, m) as u32,
        fuel: adj_fuel(a.fuel, m) as u32,
        co2: adj_co2(a.co2, m) as u32,
        ..a
    }
}

impl Aircraft {
    /// An owned copy of the record, equal field by field.
    pub fn duplicate(&self) -> (r: Aircraft)
        ensures
            eq_rec(r, *self),
    {
        Aircraft {
            id: self.id,
            eid: self.eid,
            shortname: self.shortname.clone(),
            name: self.name.clone(),
            speed: self.speed,
            fuel: self.fuel,
            co2: self.co2,
            range: self.range,
        }
    }
}

/// Apply the multiplicative stat adjustments of a modifier clause to a
/// record whose engine variant has already been substituted.
pub fn apply_modifiers(a: &Aircraft, m: &ModifierClause) -> (r: Aircraft)
    requires
        wf_aircraft(*a),
    ensures
        eq_rec(r, apply_spec(*a, *m)),
{
    let sn: u64 = if m.speed {
        110
    } else {
        100
    };
    let xn: u64 = if m.fourx {
        400
    } else {
        100
    };
    let fnum: u64 = if m.fuel {
        90
    } else {
        100
    };
    let cnum: u64 = if m.co2 {
        90
    } else {
        100
    };
    assert(sn * xn == speed_factor(*m));
    let sp_big: u64 = (a.speed as u64) * sn * xn;
    assert(sp_big <= 10_000_000u64 * 110 * 400) by {
        vstd::arithmetic::mul::lemma_mul_upper_bound(
            a.speed as int,
            MAX_STAT as int,
            (sn * xn) as int,
            44000,
        );
    }
    proof {
        let s = a.speed as int;
        let n1 = sn as int;
        let n2 = xn as int;
        assert(s * n1 * n2 == s * (n1 * n2)) by (nonlinear_arith);
        assert(sp_big == a.speed * speed_factor(*m));
    }
    let sp: u64 = sp_big / 10000;
    let fu_big: u64 = (a.fuel as u64) * fnum;
    let fu: u64 = fu_big / 100;
    let co_big: u64 = (a.co2 as u64) * cnum;
    let co: u64 = co_big / 100;
    assert(sp <= 0xffff_ffff && fu <= 0xffff_ffff && co <= 0xffff_ffff) by {
        vstd::arithmetic::div_mod::lemma_div_is_ordered(
            sp_big as int,
            440_000_000_000,
            10000,
        );
        vstd::arithmetic::div_mod::lemma_div_is_ordered(fu_big as int, 1_000_000_000, 100);
        vstd::arithmetic::div_mod::lemma_div_is_ordered(co_big as int, 1_000_000_000, 100);
    }
    Aircraft {
        id: a.id,
        eid: a.eid,
        shortname: a.shortname.clone(),
        name: a.name.clone(),
        speed: sp as u32,
        fuel: fu as u32,
        co2: co as u32,
        range: a.range,
    }
}

} // verus!
