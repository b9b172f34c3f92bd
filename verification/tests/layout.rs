use otlayout::ggg::{
    Class, ClassDefinitionTable, CoverageTable, FeatureIndex, FeatureVariationIndex,
    LanguageIndex, LookupIndex, ScriptIndex, GsubGposTable,
};
use otlayout::{GlyphId, NormalizedCoord, Tag};

fn push16(v: &mut Vec<u8>, x: u16) {
    v.extend_from_slice(&x.to_be_bytes());
}

fn push32(v: &mut Vec<u8>, x: u32) {
    v.extend_from_slice(&x.to_be_bytes());
}

fn push_tag(v: &mut Vec<u8>, t: &[u8; 4]) {
    v.extend_from_slice(t);
}

/// A version-1.0 table with two scripts, two features and one lookup.
fn sample_table() -> Vec<u8> {
    let mut v = Vec::new();
    push32(&mut v, 0x00010000);
    push16(&mut v, 10); // script list
    push16(&mut v, 48); // feature list
    push16(&mut v, 74); // lookup list
    // script list at 10
    push16(&mut v, 2);
    push_tag(&mut v, b"grek");
    push16(&mut v, 14);
    push_tag(&mut v, b"latn");
    push16(&mut v, 18);
    // script "grek" at list-relative 14: no default language, no languages
    push16(&mut v, 0);
    push16(&mut v, 0);
    // script "latn" at list-relative 18
    push16(&mut v, 10); // default language at script-relative 10
    push16(&mut v, 1);
    push_tag(&mut v, b"DEU ");
    push16(&mut v, 10);
    // language system at script-relative 10
    push16(&mut v, 0); // reserved
    push16(&mut v, 0xFFFF); // no required feature
    push16(&mut v, 2);
    push16(&mut v, 1);
    push16(&mut v, 3);
    // feature list at 48
    push16(&mut v, 2);
    push_tag(&mut v, b"kern");
    push16(&mut v, 14);
    push_tag(&mut v, b"liga");
    push16(&mut v, 20);
    // feature "kern" at list-relative 14
    push16(&mut v, 0);
    push16(&mut v, 1);
    push16(&mut v, 0);
    // feature "liga" at list-relative 20
    push16(&mut v, 0);
    push16(&mut v, 1);
    push16(&mut v, 2);
    // lookup list at 74
    push16(&mut v, 1);
    push_tag(&mut v, b"aaaa");
    push16(&mut v, 8);
    // lookup at list-relative 8
    push16(&mut v, 4); // type
    push16(&mut v, 8); // flag
    push16(&mut v, 2); // subtable count
    push16(&mut v, 0); // null subtable offset, skipped in iteration
    push16(&mut v, 12); // subtable at lookup-relative 12
    push16(&mut v, 9); // mark filtering set
    v
}

/// A version-1.1 table with empty mandatory lists and the given
/// feature-variations payload at offset 20.
fn v11_table(fv_payload: &[u8]) -> Vec<u8> {
    let mut v = Vec::new();
    push32(&mut v, 0x00010001);
    push16(&mut v, 14);
    push16(&mut v, 16);
    push16(&mut v, 18);
    push32(&mut v, 20);
    push16(&mut v, 0);
    push16(&mut v, 0);
    push16(&mut v, 0);
    v.extend_from_slice(fv_payload);
    v
}

/// A feature-variations list with one record and the given trailing bytes,
/// which start at list-relative 16.
fn fv_list(cs_off: u32, subst_off: u32, rest: &[u8]) -> Vec<u8> {
    let mut v = Vec::new();
    push16(&mut v, 1);
    push16(&mut v, 0);
    push32(&mut v, 1);
    push32(&mut v, cs_off);
    push32(&mut v, subst_off);
    v.extend_from_slice(rest);
    v
}

/// Condition-set bytes holding one condition, followed by the substitution
/// table the sample record points at.
fn one_condition_rest(format: u16, axis: u16, min: i16, max: i16) -> Vec<u8> {
    let mut v = Vec::new();
    // condition set at list-relative 16
    push16(&mut v, 1);
    push32(&mut v, 8); // condition at set-relative 8
    push16(&mut v, 0); // padding
    push16(&mut v, format);
    push16(&mut v, axis);
    push16(&mut v, min as u16);
    push16(&mut v, max as u16);
    // substitution table at list-relative 32
    push16(&mut v, 1);
    push16(&mut v, 0);
    push16(&mut v, 1);
    push16(&mut v, 3); // replaces feature index 3
    push32(&mut v, 18); // replacement table at substitution-relative 18
    // padding to substitution-relative 18
    push16(&mut v, 0);
    push16(&mut v, 0);
    push16(&mut v, 0);
    // replacement feature table
    push16(&mut v, 0);
    push16(&mut v, 2);
    push16(&mut v, 1);
    push16(&mut v, 2);
    v
}

#[test]
fn version_gate_rejects_unknown_versions() {
    let mut v = sample_table();
    assert!(GsubGposTable::parse(&v[..]).is_some());
    v[0..4].copy_from_slice(&0x00020000u32.to_be_bytes());
    assert!(GsubGposTable::parse(&v[..]).is_none());
    v[0..4].copy_from_slice(&0x00010002u32.to_be_bytes());
    assert!(GsubGposTable::parse(&v[..]).is_none());
    assert!(GsubGposTable::parse(&v[..3]).is_none());
}

#[test]
fn missing_mandatory_list_invalidates_table() {
    let mut v = sample_table();
    // Point the script list past the end of the table.
    v[4..6].copy_from_slice(&9000u16.to_be_bytes());
    assert!(GsubGposTable::parse(&v[..]).is_none());
}

#[test]
fn minimal_table_parses() {
    // Version 1.0, one script "latn", no features, no lookups.
    let mut v = Vec::new();
    push32(&mut v, 0x00010000);
    push16(&mut v, 10);
    push16(&mut v, 22);
    push16(&mut v, 24);
    push16(&mut v, 1);
    push_tag(&mut v, b"latn");
    push16(&mut v, 8);
    push16(&mut v, 0);
    push16(&mut v, 0);
    push16(&mut v, 0);
    push16(&mut v, 0);
    let table = GsubGposTable::parse(&v[..]).unwrap();
    let mut scripts = table.scripts();
    let first = scripts.next().unwrap();
    assert_eq!(first.tag(), Tag::from_bytes(b"latn"));
    assert!(scripts.next().is_none());
    assert_eq!(table.features().count(), 0);
    assert_eq!(table.lookups().count(), 0);
    assert_eq!(table.feature_variations().count(), 0);
}

#[test]
fn sequential_iteration_matches_random_access() {
    let v = sample_table();
    let table = GsubGposTable::parse(&v[..]).unwrap();
    let scripts = table.scripts();
    let mut it = table.scripts();
    let mut n = 0usize;
    while let Some(s) = it.next() {
        let direct = scripts.nth(n).unwrap();
        assert_eq!(s.tag(), direct.tag());
        n += 1;
    }
    assert_eq!(n, scripts.count());
    assert_eq!(n, 2);
}

#[test]
fn scripts_enumerate_and_resolve() {
    let v = sample_table();
    let table = GsubGposTable::parse(&v[..]).unwrap();
    assert_eq!(table.scripts().count(), 2);
    let grek = table.script_at(ScriptIndex(0)).unwrap();
    assert_eq!(grek.tag(), Tag::from_bytes(b"grek"));
    let latn = table.script_at(ScriptIndex(1)).unwrap();
    assert_eq!(latn.tag(), Tag::from_bytes(b"latn"));
    assert!(table.script_at(ScriptIndex(2)).is_none());
}

#[test]
fn script_by_tag_finds_each_position() {
    let v = sample_table();
    let table = GsubGposTable::parse(&v[..]).unwrap();
    let (i, s) = table.scripts().by_tag(Tag::from_bytes(b"grek")).unwrap();
    assert_eq!(i, ScriptIndex(0));
    assert_eq!(s.tag(), Tag::from_bytes(b"grek"));
    let (i, s) = table.scripts().by_tag(Tag::from_bytes(b"latn")).unwrap();
    assert_eq!(i, ScriptIndex(1));
    assert_eq!(s.tag(), Tag::from_bytes(b"latn"));
    assert!(table.scripts().by_tag(Tag::from_bytes(b"arab")).is_none());
}

#[test]
fn default_language_absent_on_null_offset() {
    let v = sample_table();
    let table = GsubGposTable::parse(&v[..]).unwrap();
    let grek = table.script_at(ScriptIndex(0)).unwrap();
    assert!(grek.default_language().is_none());
    let latn = table.script_at(ScriptIndex(1)).unwrap();
    let dflt = latn.default_language().unwrap();
    assert_eq!(dflt.tag, Tag::from_bytes(b"DFLT"));
    assert!(dflt.required_feature_index.is_none());
}

#[test]
fn languages_resolve_with_feature_indices() {
    let v = sample_table();
    let table = GsubGposTable::parse(&v[..]).unwrap();
    let latn = table.script_at(ScriptIndex(1)).unwrap();
    assert_eq!(latn.languages().count(), 1);
    let deu = latn.language_at(LanguageIndex(0)).unwrap();
    assert_eq!(deu.tag, Tag::from_bytes(b"DEU "));
    assert!(deu.required_feature_index.is_none());
    assert_eq!(deu.feature_indices.len(), 2);
    assert_eq!(deu.feature_indices.get(0), Some(FeatureIndex(1)));
    assert_eq!(deu.feature_indices.get(1), Some(FeatureIndex(3)));
    assert!(latn.language_at(LanguageIndex(1)).is_none());
}

#[test]
fn language_by_tag_agrees_with_language_at() {
    let v = sample_table();
    let table = GsubGposTable::parse(&v[..]).unwrap();
    let latn = table.script_at(ScriptIndex(1)).unwrap();
    let (idx, lang) = latn.language_by_tag(Tag::from_bytes(b"DEU ")).unwrap();
    assert_eq!(idx, LanguageIndex(0));
    let direct = latn.language_at(idx).unwrap();
    assert_eq!(lang.tag, direct.tag);
    assert_eq!(lang.required_feature_index, direct.required_feature_index);
    assert_eq!(lang.feature_indices.len(), direct.feature_indices.len());
    assert!(latn.language_by_tag(Tag::from_bytes(b"FRA ")).is_none());
}

#[test]
fn features_enumerate_and_find_by_tag() {
    let v = sample_table();
    let table = GsubGposTable::parse(&v[..]).unwrap();
    assert_eq!(table.features().count(), 2);
    let kern = table.feature_at(FeatureIndex(0)).unwrap();
    assert_eq!(kern.tag, Tag::from_bytes(b"kern"));
    assert_eq!(kern.lookup_indices.get(0), Some(LookupIndex(0)));
    let (i, liga) = table.features().by_tag(Tag::from_bytes(b"liga")).unwrap();
    assert_eq!(i, FeatureIndex(1));
    assert_eq!(liga.lookup_indices.get(0), Some(LookupIndex(2)));
    assert!(table.features().by_tag(Tag::from_bytes(b"zzzz")).is_none());
}

#[test]
fn lookup_fields_and_subtable_iteration() {
    let v = sample_table();
    let table = GsubGposTable::parse(&v[..]).unwrap();
    assert_eq!(table.lookups().count(), 1);
    let lookup = table.lookup_at(LookupIndex(0)).unwrap();
    assert_eq!(lookup.lookup_type(), 4);
    assert_eq!(lookup.lookup_flag(), 8);
    assert_eq!(lookup.mark_filtering_set(), 9);
    // The null subtable offset is skipped transparently.
    let mut subtables = lookup.subtables();
    let first = subtables.next().unwrap();
    assert_eq!(first.len(), 0); // the second offset points at the lookup's end
    assert!(subtables.next().is_none());
}

#[test]
fn variation_condition_in_range() {
    let rest = one_condition_rest(1, 0, -100, 100);
    let v = v11_table(&fv_list(16, 32, &rest));
    let table = GsubGposTable::parse(&v[..]).unwrap();
    assert_eq!(table.feature_variations().count(), 1);
    let variation = table.feature_variation_at(FeatureVariationIndex(0)).unwrap();
    assert!(variation.evaluate(&[NormalizedCoord(0)]));
    assert!(variation.evaluate(&[NormalizedCoord(100)]));
    assert!(variation.evaluate(&[NormalizedCoord(-100)]));
    assert!(!variation.evaluate(&[NormalizedCoord(-200)]));
    assert!(!variation.evaluate(&[NormalizedCoord(101)]));
    // An axis beyond the supplied vector reads as coordinate 0, in range.
    assert!(variation.evaluate(&[]));
}

#[test]
fn variation_empty_condition_set_applies() {
    let rest = [0u8, 0]; // a condition set with no conditions
    let v = v11_table(&fv_list(16, 0, &rest));
    let table = GsubGposTable::parse(&v[..]).unwrap();
    let variation = table.feature_variation_at(FeatureVariationIndex(0)).unwrap();
    assert!(variation.evaluate(&[]));
    assert!(variation.evaluate(&[NormalizedCoord(-16384), NormalizedCoord(16384)]));
}

#[test]
fn variation_unreadable_condition_set_never_applies() {
    let rest = [0u8, 0];
    let v = v11_table(&fv_list(9000, 0, &rest));
    let table = GsubGposTable::parse(&v[..]).unwrap();
    let variation = table.feature_variation_at(FeatureVariationIndex(0)).unwrap();
    assert!(!variation.evaluate(&[NormalizedCoord(0)]));
}

#[test]
fn variation_unknown_condition_format_never_applies() {
    let rest = one_condition_rest(2, 0, -100, 100);
    let v = v11_table(&fv_list(16, 32, &rest));
    let table = GsubGposTable::parse(&v[..]).unwrap();
    let variation = table.feature_variation_at(FeatureVariationIndex(0)).unwrap();
    assert!(!variation.evaluate(&[NormalizedCoord(0)]));
}

#[test]
fn substitution_resolves_replacement_feature() {
    let rest = one_condition_rest(1, 0, -100, 100);
    let v = v11_table(&fv_list(16, 32, &rest));
    let table = GsubGposTable::parse(&v[..]).unwrap();
    let variation = table.feature_variation_at(FeatureVariationIndex(0)).unwrap();
    let subs = variation.substitutions().unwrap();
    assert_eq!(subs.count(), 1);
    let sub = subs.nth(0).unwrap();
    assert_eq!(sub.index(), FeatureIndex(3));
    let feature = sub.feature().unwrap();
    assert_eq!(feature.tag, Tag(0));
    assert_eq!(feature.lookup_indices.len(), 2);
    assert_eq!(feature.lookup_indices.get(0), Some(LookupIndex(1)));
    assert_eq!(feature.lookup_indices.get(1), Some(LookupIndex(2)));
}

#[test]
fn missing_variations_list_yields_empty_collection() {
    // Version 1.1 with a null variations offset.
    let mut v = Vec::new();
    push32(&mut v, 0x00010001);
    push16(&mut v, 14);
    push16(&mut v, 16);
    push16(&mut v, 18);
    push32(&mut v, 0);
    push16(&mut v, 0);
    push16(&mut v, 0);
    push16(&mut v, 0);
    let table = GsubGposTable::parse(&v[..]).unwrap();
    assert_eq!(table.feature_variations().count(), 0);
    // An unresolvable variations offset still parses, with no variations.
    v[10..14].copy_from_slice(&9000u32.to_be_bytes());
    let table = GsubGposTable::parse(&v[..]).unwrap();
    assert_eq!(table.feature_variations().count(), 0);
    assert!(table.feature_variation_at(FeatureVariationIndex(0)).is_none());
}

#[test]
fn coverage_format1_membership() {
    let mut v = Vec::new();
    push16(&mut v, 1);
    push16(&mut v, 3);
    push16(&mut v, 5);
    push16(&mut v, 10);
    push16(&mut v, 15);
    let cov = CoverageTable::new(&v[..]);
    assert!(cov.contains(GlyphId(5)));
    assert!(cov.contains(GlyphId(10)));
    assert!(cov.contains(GlyphId(15)));
    assert!(!cov.contains(GlyphId(7)));
    assert!(!cov.contains(GlyphId(0)));
    assert!(!cov.contains(GlyphId(16)));
}

#[test]
fn coverage_format2_range_boundaries() {
    let mut v = Vec::new();
    push16(&mut v, 2);
    push16(&mut v, 1);
    push16(&mut v, 10);
    push16(&mut v, 20);
    push16(&mut v, 0);
    let cov = CoverageTable::new(&v[..]);
    assert!(cov.contains(GlyphId(10)));
    assert!(cov.contains(GlyphId(20)));
    assert!(cov.contains(GlyphId(15)));
    assert!(!cov.contains(GlyphId(9)));
    assert!(!cov.contains(GlyphId(21)));
}

#[test]
fn coverage_fails_closed() {
    let cov = CoverageTable::new(&[]);
    assert!(!cov.contains(GlyphId(0)));
    let mut v = Vec::new();
    push16(&mut v, 3); // unknown format
    push16(&mut v, 1);
    push16(&mut v, 5);
    let cov = CoverageTable::new(&v[..]);
    assert!(!cov.contains(GlyphId(5)));
    let mut v = Vec::new();
    push16(&mut v, 1);
    push16(&mut v, 9); // count larger than the data
    push16(&mut v, 5);
    let cov = CoverageTable::new(&v[..]);
    assert!(!cov.contains(GlyphId(5)));
}

#[test]
fn class_definition_format1_run() {
    let mut v = Vec::new();
    push16(&mut v, 1);
    push16(&mut v, 10); // start glyph
    push16(&mut v, 3);
    push16(&mut v, 7);
    push16(&mut v, 8);
    push16(&mut v, 9);
    let def = ClassDefinitionTable::new(&v[..]);
    assert_eq!(def.get(GlyphId(10)), Class(7));
    assert_eq!(def.get(GlyphId(11)), Class(8));
    assert_eq!(def.get(GlyphId(12)), Class(9));
    assert_eq!(def.get(GlyphId(9)), Class(0));
    assert_eq!(def.get(GlyphId(13)), Class(0));
}

#[test]
fn class_definition_format2_ranges() {
    let mut v = Vec::new();
    push16(&mut v, 2);
    push16(&mut v, 2);
    push16(&mut v, 10);
    push16(&mut v, 20);
    push16(&mut v, 5);
    push16(&mut v, 30);
    push16(&mut v, 40);
    push16(&mut v, 6);
    let def = ClassDefinitionTable::new(&v[..]);
    assert_eq!(def.get(GlyphId(10)), Class(5));
    assert_eq!(def.get(GlyphId(20)), Class(5));
    assert_eq!(def.get(GlyphId(35)), Class(6));
    assert_eq!(def.get(GlyphId(25)), Class(0));
    assert_eq!(def.get(GlyphId(41)), Class(0));
}

#[test]
fn class_definition_never_fails() {
    let def = ClassDefinitionTable::new(&[]);
    assert_eq!(def.get(GlyphId(0)), Class(0));
    let mut v = Vec::new();
    push16(&mut v, 9); // unknown format
    push16(&mut v, 1);
    let def = ClassDefinitionTable::new(&v[..]);
    assert_eq!(def.get(GlyphId(1)), Class(0));
}

#[test]
fn variation_all_conditions_must_hold() {
    // Two conditions on axes 0 and 1; both must accept the coordinates.
    let mut rest = Vec::new();
    push16(&mut rest, 2);
    push32(&mut rest, 10); // first condition at set-relative 10
    push32(&mut rest, 18); // second condition at set-relative 18
    push16(&mut rest, 1);
    push16(&mut rest, 0);
    push16(&mut rest, 0u16.wrapping_sub(100)); // -100
    push16(&mut rest, 100);
    push16(&mut rest, 1);
    push16(&mut rest, 1);
    push16(&mut rest, 50);
    push16(&mut rest, 200);
    let v = v11_table(&fv_list(16, 0, &rest));
    let table = GsubGposTable::parse(&v[..]).unwrap();
    let variation = table.feature_variation_at(FeatureVariationIndex(0)).unwrap();
    assert!(variation.evaluate(&[NormalizedCoord(0), NormalizedCoord(100)]));
    assert!(!variation.evaluate(&[NormalizedCoord(0), NormalizedCoord(0)]));
    assert!(!variation.evaluate(&[NormalizedCoord(-200), NormalizedCoord(100)]));
    // Only axis 0 supplied: axis 1 reads as 0, outside [50, 200].
    assert!(!variation.evaluate(&[NormalizedCoord(0)]));
}

#[test]
fn feature_iteration_matches_feature_at() {
    let v = sample_table();
    let table = GsubGposTable::parse(&v[..]).unwrap();
    let mut it = table.features();
    let mut n = 0u16;
    while let Some(f) = it.next() {
        let direct = table.feature_at(FeatureIndex(n)).unwrap();
        assert_eq!(f.tag, direct.tag);
        n += 1;
    }
    assert_eq!(n, 2);
    let latn = table.script_at(ScriptIndex(1)).unwrap();
    let mut langs = latn.languages();
    let first = langs.next().unwrap();
    assert_eq!(first.tag, Tag::from_bytes(b"DEU "));
    assert!(langs.next().is_none());
}

#[test]
fn lookups_repeated_calls_are_identical() {
    let v = sample_table();
    let t1 = GsubGposTable::parse(&v[..]).unwrap();
    let t2 = GsubGposTable::parse(&v[..]).unwrap();
    assert_eq!(t1.scripts().count(), t2.scripts().count());
    assert_eq!(
        t1.script_at(ScriptIndex(0)).unwrap().tag(),
        t2.script_at(ScriptIndex(0)).unwrap().tag()
    );
    let mut cov = Vec::new();
    push16(&mut cov, 2);
    push16(&mut cov, 1);
    push16(&mut cov, 10);
    push16(&mut cov, 20);
    push16(&mut cov, 0);
    let c = CoverageTable::new(&cov[..]);
    assert_eq!(c.contains(GlyphId(15)), c.contains(GlyphId(15)));
    assert!(c.contains(GlyphId(15)));
}
