use am4::aircraft::Aircraft;
use am4::catalog::Catalog;
use am4::modifier::Modifier;
use am4::query::SearchError;

fn rec(
    id: u16,
    eid: u16,
    shortname: &str,
    name: &str,
    speed: u32,
    fuel: u32,
    co2: u32,
    range: u32,
) -> Aircraft {
    Aircraft {
        id,
        eid,
        shortname: shortname.to_string(),
        name: name.to_string(),
        speed,
        fuel,
        co2,
        range,
    }
}

/// A small catalog in the shape the data source supplies: stats in
/// hundredths, short codes lowercase, engine variants of one airframe
/// in catalog order (variant 0 first).
fn build_catalog() -> Catalog {
    Catalog::new(vec![
        rec(1, 4, "b744", "B747-400", 91500, 2460, 1300, 13450),
        rec(1, 2, "b744", "B747-400", 91500, 2121, 18, 13450),
        rec(2, 7, "a388", "A380-800", 94500, 2800, 1500, 14800),
        rec(3, 1, "c172", "Cessna 172", 12400, 32, 10, 1285),
    ])
}

#[test]
fn test_aircrafts_ok() {
    let c = build_catalog();
    assert_eq!(c.data_len(), 4);
    assert_eq!(c.data().len(), 4);
    // two keys (short code, name) per airframe, three airframes
    assert_eq!(c.index_len(), 6);
    assert_eq!(c.index().len(), 6);
}

#[test]
fn test_aircraft_search() {
    let c = build_catalog();
    for inp in ["id:1", "shortname:b744", "name:B747-400", "b744", "B744"] {
        let ac = c.search(inp).unwrap();
        assert_eq!(ac.aircraft.shortname, "b744");
        assert_eq!(ac.aircraft.id, 1);
        assert_eq!(ac.aircraft.eid, 4);
    }
}

#[test]
fn test_search_by_id_every_airframe() {
    let c = build_catalog();
    for (q, id, eid) in [("id:1", 1, 4), ("id:2", 2, 7), ("id:3", 3, 1)] {
        let ac = c.search(q).unwrap();
        assert_eq!(ac.aircraft.id, id);
        assert_eq!(ac.aircraft.eid, eid);
    }
}

#[test]
fn test_aircraft_fail_and_suggest() {
    let c = build_catalog();
    for inp in [
        "b7440",
        "B747-4000",
        "shortname:b7440",
        "name:B747-4000",
        "shortname:b747-4000", // cross suggestion via the name field
        "name:b744",           // cross suggestion via the short code
    ] {
        assert!(c.search(inp).is_err(), "search({inp}) should fail");
        let suggs = c.suggest(inp).unwrap();
        assert!(!suggs.is_empty());
        assert_eq!(suggs[0].item.shortname, "b744", "suggest({inp})");
        for w in suggs.windows(2) {
            assert!(w[0].score >= w[1].score, "scores must descend");
        }
    }
}

#[test]
fn test_aircraft_stoi_trailing() {
    let c = build_catalog();
    assert!(c.search("74sp").is_err());
    assert_eq!(c.search("id:335a").unwrap_err(), SearchError::InvalidId);
}

#[test]
fn test_aircraft_stoi_overflow() {
    let c = build_catalog();
    assert_eq!(c.search("65590").unwrap_err(), SearchError::InvalidId);
    assert_eq!(c.search("id:65590").unwrap_err(), SearchError::InvalidId);
}

#[test]
fn test_aircraft_modifiers_syntax() {
    let c = build_catalog();
    let cases: [(&str, &str, u8, bool, bool, bool, bool); 9] = [
        ("b744[0]", "b744", 0, false, false, false, false),
        ("b744[1]", "b744", 1, false, false, false, false),
        ("b744[f1c]", "b744", 1, false, true, true, false),
        ("b744[cf]", "b744", 0, false, true, true, false),
        ("b744[sfcx]", "b744", 0, true, true, true, true),
        ("b744[s,fc,,  , ,x]", "b744", 0, true, true, true, true),
        ("id:1[sfcx]", "b744", 0, true, true, true, true),
        ("shortname:b744[sfcx]", "b744", 0, true, true, true, true),
        ("name:B747-400[sfcx]", "b744", 0, true, true, true, true),
    ];
    for (inp, shortname, engine, sp, fu, co, fx) in cases {
        let result = c.search(inp).unwrap();
        assert_eq!(result.aircraft.shortname, shortname, "{inp}");
        let mods = &result.modifiers;
        assert_eq!(mods.engine, engine, "{inp}");
        assert_eq!(mods.contains(Modifier::Speed), sp, "{inp}");
        assert_eq!(mods.contains(Modifier::Fuel), fu, "{inp}");
        assert_eq!(mods.contains(Modifier::Co2), co, "{inp}");
        assert_eq!(mods.contains(Modifier::FourX), fx, "{inp}");
    }
}

#[test]
fn test_modifier_separators_immaterial() {
    let c = build_catalog();
    let a = c.search("b744[s,fc,,  , ,x]").unwrap();
    let b = c.search("b744[sfcx]").unwrap();
    assert_eq!(a.modifiers, b.modifiers);
    assert_eq!(a.aircraft.speed, b.aircraft.speed);
    assert_eq!(a.aircraft.fuel, b.aircraft.fuel);
    assert_eq!(a.aircraft.co2, b.aircraft.co2);
}

#[test]
fn test_empty_clause_is_default() {
    let c = build_catalog();
    let plain = c.search("b744").unwrap();
    let empty = c.search("b744[]").unwrap();
    assert_eq!(plain.modifiers, empty.modifiers);
    assert_eq!(plain.aircraft.eid, empty.aircraft.eid);
}

#[test]
fn test_explicit_default_variant() {
    let c = build_catalog();
    let a = c.search("b744").unwrap();
    let a0 = c.search("b744[0]").unwrap();
    assert_eq!(a.aircraft.id, a0.aircraft.id);
    assert_eq!(a.aircraft.eid, a0.aircraft.eid);
    assert_eq!(a.aircraft.speed, a0.aircraft.speed);
    assert_eq!(a.aircraft.fuel, a0.aircraft.fuel);
    assert_eq!(a.aircraft.co2, a0.aircraft.co2);
    assert_eq!(a.modifiers, a0.modifiers);
}

#[test]
fn test_aircraft_engine_modifier() {
    let c = build_catalog();
    let a = c.search("b744").unwrap().aircraft;
    let a0 = c.search("b744[0]").unwrap().aircraft;
    let a1 = c.search("b744[1]").unwrap().aircraft;
    let a1sfc = c.search("b744[1,sfc]").unwrap().aircraft;

    assert_eq!(a.id, a0.id);
    assert_eq!(a0.id, a1.id);
    assert_eq!(a.eid, a0.eid);
    assert_ne!(a0.eid, a1.eid);
    // variant 1 has its own fuel and CO2 base values (in hundredths:
    // 21.21 and 0.18 units)
    assert_eq!(a1.fuel, 2121);
    assert_eq!(a1.co2, 18);

    assert!(
        (a1sfc.speed as f64 / a1.speed as f64 - 1.1).abs() < 0.001,
        "Speed modifier not applied correctly"
    );
    assert!(
        (a1sfc.fuel as f64 / a1.fuel as f64 - 0.9).abs() < 0.001,
        "Fuel modifier not applied correctly"
    );
    // at 0.18 units the hundredths grid floors 0.162 to 0.16, so the
    // CO2 adjustment is checked by its exact integer law instead
    assert_eq!(a1sfc.co2, a1.co2 * 90 / 100);
}

#[test]
fn test_modifier_ratio_bounds() {
    let c = build_catalog();
    let base = c.search("b744").unwrap().aircraft;
    let m = c.search("b744[sfc]").unwrap().aircraft;
    assert!((m.speed as f64 / base.speed as f64 - 1.1).abs() < 0.001);
    assert!((m.fuel as f64 / base.fuel as f64 - 0.9).abs() < 0.001);
    assert!((m.co2 as f64 / base.co2 as f64 - 0.9).abs() < 0.001);
}

#[test]
fn test_prefix_case_exact() {
    let c = build_catalog();
    // selector prefixes are literal: a capitalized prefix is an
    // ordinary unprefixed token, which matches no record
    assert_eq!(c.search("ID:1").unwrap_err(), SearchError::NotFound);
    assert_eq!(c.search("Name:B747-400").unwrap_err(), SearchError::NotFound);
    // the token itself is still matched case-insensitively
    assert_eq!(c.search("shortname:B744").unwrap().aircraft.id, 1);
}

#[test]
fn test_aircraft_fourx() {
    let c = build_catalog();
    let a0 = c.search("b744").unwrap().aircraft;
    let a1 = c.search("b744[x]").unwrap().aircraft;
    assert!(
        (a1.speed as f64 / a0.speed as f64 - 4.0).abs() < 0.001,
        "4x modifier not applied correctly"
    );
}

#[test]
fn test_modifier_exact_values() {
    let c = build_catalog();
    let base = c.search("b744").unwrap().aircraft;
    let m = c.search("b744[sfc]").unwrap().aircraft;
    assert_eq!(m.speed, base.speed * 110 / 100);
    assert_eq!(m.fuel, base.fuel * 90 / 100);
    assert_eq!(m.co2, base.co2 * 90 / 100);
    assert_eq!(m.range, base.range);
    let x = c.search("b744[x]").unwrap().aircraft;
    assert_eq!(x.speed, base.speed * 4);
    let sx = c.search("b744[sx]").unwrap().aircraft;
    // Speed and FourX compose multiplicatively: x1.10 then x4.00
    assert_eq!(sx.speed, base.speed * 110 * 400 / 10000);
}

#[test]
fn test_engine_variant_errors() {
    let c = build_catalog();
    assert_eq!(
        c.search("b744[5]").unwrap_err(),
        SearchError::InvalidEngineVariant
    );
    assert_eq!(
        c.search("a388[1]").unwrap_err(),
        SearchError::InvalidEngineVariant
    );
}

#[test]
fn test_modifier_errors() {
    let c = build_catalog();
    assert_eq!(c.search("b744[z]").unwrap_err(), SearchError::InvalidModifier);
    assert_eq!(c.search("b744[12]").unwrap_err(), SearchError::InvalidModifier);
    assert_eq!(c.search("b744[0").unwrap_err(), SearchError::InvalidModifier);
}

#[test]
fn test_not_found() {
    let c = build_catalog();
    assert_eq!(c.search("b748").unwrap_err(), SearchError::NotFound);
    assert_eq!(c.search("id:9").unwrap_err(), SearchError::NotFound);
    assert_eq!(
        c.search("shortname:nosuch").unwrap_err(),
        SearchError::NotFound
    );
    assert_eq!(c.search("name:nosuch").unwrap_err(), SearchError::NotFound);
}

#[test]
fn test_no_suggestion() {
    let c = build_catalog();
    assert_eq!(c.suggest("zzzz").unwrap_err(), SearchError::NoSuggestion);
    assert_eq!(c.suggest("qqqqqq").unwrap_err(), SearchError::NoSuggestion);
}

#[test]
fn test_suggest_strips_prefix_and_clause() {
    let c = build_catalog();
    let s = c.suggest("shortname:b7440[sfcx]").unwrap();
    assert_eq!(s[0].item.shortname, "b744");
}
