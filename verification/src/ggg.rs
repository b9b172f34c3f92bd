//! The layout-table object model shared by GSUB and GPOS: script, language,
//! feature and lookup enumeration, feature-variation evaluation, and the
//! coverage and class-definition lookups.
//!
//! Every structure borrows a sub-range of the table's byte buffer and decodes
//! records only on access. Parse failure is an absence signal, never a panic.

use vstd::prelude::*;

use crate::parser::be16;
use crate::parser::be32;
use crate::parser::FromData;
use crate::parser::LazyArray16;
use crate::parser::LazyArray32;
use crate::parser::Offset16;
use crate::parser::Offset32;
use crate::parser::Offsets16;
use crate::parser::OffsetsIter16;
use crate::parser::SearchKey;
use crate::parser::Stream;
use crate::GlyphId;
use crate::NormalizedCoord;
use crate::Tag;

verus! {

/// A type-safe wrapper for a script index.
#[derive(Clone, Copy, PartialEq, Eq, Structural, Debug)]
pub struct ScriptIndex(pub u16);

/// A type-safe wrapper for a language index.
#[derive(Clone, Copy, PartialEq, Eq, Structural, Debug)]
pub struct LanguageIndex(pub u16);

/// A type-safe wrapper for a feature index.
#[derive(Clone, Copy, PartialEq, Eq, Structural, Debug)]
pub struct FeatureIndex(pub u16);

impl FromData for FeatureIndex {
    open spec fn spec_size() -> int {
        2
    }

    open spec fn spec_parse(data: Seq<u8>) -> FeatureIndex {
        FeatureIndex(be16(data, 0))
    }

    proof fn size_facts() {
    }

    fn size() -> usize {
        2
    }

    fn parse(data: &[u8]) -> (r: Option<FeatureIndex>) {
        match u16::parse(data) {
            Some(n) => Some(FeatureIndex(n)),
            None => None,
        }
    }
}

/// A type-safe wrapper for a feature-variation index.
#[derive(Clone, Copy, PartialEq, Eq, Structural, Debug)]
pub struct FeatureVariationIndex(pub u32);

/// A type-safe wrapper for a lookup index.
#[derive(Clone, Copy, PartialEq, Eq, Structural, Debug)]
pub struct LookupIndex(pub u16);

impl FromData for LookupIndex {
    open spec fn spec_size() -> int {
        2
    }

    open spec fn spec_parse(data: Seq<u8>) -> LookupIndex {
        LookupIndex(be16(data, 0))
    }

    proof fn size_facts() {
    }

    fn size() -> usize {
        2
    }

    fn parse(data: &[u8]) -> (r: Option<LookupIndex>) {
        match u16::parse(data) {
            Some(n) => Some(LookupIndex(n)),
            None => None,
        }
    }
}

/// A list entry: a 4-byte tag and the offset of the entry's table, measured
/// from the start of the declaring list.
#[derive(Clone, Copy, PartialEq, Eq, Structural, Debug)]
pub struct Record {
    pub tag: Tag,
    pub offset: Offset16,
}

impl FromData for Record {
    open spec fn spec_size() -> int {
        6
    }

    open spec fn spec_parse(data: Seq<u8>) -> Record {
        Record { tag: Tag(be32(data, 0)), offset: Offset16(be16(data, 4)) }
    }

    proof fn size_facts() {
    }

    fn size() -> usize {
        6
    }

    fn parse(data: &[u8]) -> (r: Option<Record>) {
        if data.len() == 6 {
            let tag = match Stream::read_at::<u32>(data, 0) {
                Some(n) => Tag(n),
                None => {
                    return None;
                },
            };
            let offset = match Stream::read_at::<u16>(data, 4) {
                Some(n) => Offset16(n),
                None => {
                    return None;
                },
            };
            proof {
                assert(data@.subrange(0, 4)[0] == data@[0]);
            }
            Some(Record { tag, offset })
        } else {
            None
        }
    }
}

impl SearchKey for Record {
    open spec fn spec_key(&self) -> u64 {
        self.tag.0 as u64
    }

    fn key(&self) -> u64 {
        self.tag.0 as u64
    }
}

/// The mathematical content of a record-list collection: the declaring
/// buffer, the raw record bytes, and the iteration position.
pub ghost struct ListView {
    pub data: Seq<u8>,
    pub records: Seq<u8>,
    pub index: int,
}

/// The mathematical content of a resolved script table.
pub ghost struct ScriptView {
    pub data: Seq<u8>,
    pub tag: Tag,
    pub default_lang_offset: Option<Offset16>,
    pub records: Seq<u8>,
}

/// The mathematical content of a resolved language system.
pub ghost struct LanguageView {
    pub tag: Tag,
    pub required_feature_index: Option<FeatureIndex>,
    pub feature_indices: Seq<u8>,
}

/// The number of whole stride-`stride` records in `recs`, reduced to the
/// 16-bit index space exactly as the lazy arrays do.
pub open spec fn count16(recs: Seq<u8>, stride: int) -> int {
    (recs.len() as int / stride) % 0x10000
}

/// The number of whole stride-`stride` records in `recs`, in the 32-bit
/// index space.
pub open spec fn count32(recs: Seq<u8>, stride: int) -> int {
    (recs.len() as int / stride) % 0x1_0000_0000
}

/// The `n`-th tag record stored in `recs`.
pub open spec fn record_at(recs: Seq<u8>, n: int) -> Record {
    Record::spec_parse(recs.subrange(n * 6, n * 6 + 6))
}

/// Whether the record tags in `recs` are in ascending order. Assumed of the
/// format, never re-validated; tag search contracts are conditional on it.
pub open spec fn tags_sorted(recs: Seq<u8>) -> bool {
    forall|i: int, j: int|
        0 <= i <= j < count16(recs, 6) ==> #[trigger] record_at(recs, i).tag.0
            <= #[trigger] record_at(recs, j).tag.0
}

/// Whether the record tags in `recs` are in strictly ascending order, as the
/// binary format demands of tag record lists.
pub open spec fn tags_strictly_sorted(recs: Seq<u8>) -> bool {
    forall|i: int, j: int|
        0 <= i < j < count16(recs, 6) ==> #[trigger] record_at(recs, i).tag.0
            < #[trigger] record_at(recs, j).tag.0
}

/// The record list found at byte distance `off` in `d`: a 16-bit count
/// followed by that many 6-byte records. Yields the list's buffer and the
/// records' bytes, absent when either leaves `d`.
pub open spec fn spec_list_at(d: Seq<u8>, off: int) -> Option<(Seq<u8>, Seq<u8>)> {
    if 0 <= off <= d.len() {
        let ld = d.subrange(off, d.len() as int);
        if 2 <= ld.len() {
            let count = be16(ld, 0) as int;
            if 2 + count * 6 <= ld.len() {
                Some((ld, ld.subrange(2, 2 + count * 6)))
            } else {
                None
            }
        } else {
            None
        }
    } else {
        None
    }
}

/// The language-system table found at the start of `d`: a reserved field, a
/// required-feature index with `0xFFFF` meaning none, and a 16-bit-counted
/// feature-index array.
pub open spec fn spec_lang_sys(d: Seq<u8>, tag: Tag) -> Option<LanguageView> {
    if 6 <= d.len() {
        let rfi = be16(d, 2);
        let count = be16(d, 4) as int;
        if 6 + count * 2 <= d.len() {
            Some(
                LanguageView {
                    tag: tag,
                    required_feature_index: (if rfi == 0xFFFF {
                        None
                    } else {
                        Some(FeatureIndex(rfi))
                    }),
                    feature_indices: d.subrange(6, 6 + count * 2),
                },
            )
        } else {
            None
        }
    } else {
        None
    }
}

/// The script table the `n`-th record of a script list resolves to: an
/// optional default-language offset and a language record array.
pub open spec fn spec_script_at(v: ListView, n: int) -> Option<ScriptView> {
    if 0 <= n < count16(v.records, 6) {
        let rec = record_at(v.records, n);
        if rec.offset.0 as int <= v.data.len() {
            let sd = v.data.subrange(rec.offset.0 as int, v.data.len() as int);
            if 4 <= sd.len() {
                let count = be16(sd, 2) as int;
                if 4 + count * 6 <= sd.len() {
                    Some(
                        ScriptView {
                            data: sd,
                            tag: rec.tag,
                            default_lang_offset: <Option<Offset16> as FromData>::spec_parse(
                                sd.subrange(0, 2),
                            ),
                            records: sd.subrange(4, 4 + count * 6),
                        },
                    )
                } else {
                    None
                }
            } else {
                None
            }
        } else {
            None
        }
    } else {
        None
    }
}

/// The language system the `n`-th record of a script's language list
/// resolves to.
pub open spec fn spec_language_at(v: ListView, n: int) -> Option<LanguageView> {
    if 0 <= n < count16(v.records, 6) {
        let rec = record_at(v.records, n);
        if rec.offset.0 as int <= v.data.len() {
            spec_lang_sys(v.data.subrange(rec.offset.0 as int, v.data.len() as int), rec.tag)
        } else {
            None
        }
    } else {
        None
    }
}

/// The language list of a script: the same record array, starting at the
/// first language.
pub open spec fn spec_languages_of(v: ScriptView) -> ListView {
    ListView { data: v.data, records: v.records, index: 0 }
}

/// The default language system of a script, absent when the script declares
/// none (offset `0`) or the offset cannot be resolved.
pub open spec fn spec_default_language(v: ScriptView) -> Option<LanguageView> {
    match v.default_lang_offset {
        Some(off) => if off.0 as int <= v.data.len() {
            spec_lang_sys(v.data.subrange(off.0 as int, v.data.len() as int), Tag(0x44464C54))
        } else {
            None
        },
        None => None,
    }
}

/// An enumeration of a table's scripts.
pub struct Scripts<'a> {
    data: &'a [u8],
    records: LazyArray16<'a, Record>,
    index: u16,
}

impl<'a> Clone for Scripts<'a> {
    fn clone(&self) -> (r: Self)
        ensures
            r == *self,
    {
        Scripts { data: self.data, records: self.records, index: self.index }
    }
}

impl<'a> Copy for Scripts<'a> {

}

impl<'a> View for Scripts<'a> {
    type V = ListView;

    closed spec fn view(&self) -> ListView {
        ListView { data: self.data@, records: self.records@, index: self.index as int }
    }
}

impl<'a> Scripts<'a> {
    /// The number of scripts in the list.
    pub fn count(&self) -> (r: usize)
        ensures
            r as int == count16(self@.records, 6),
    {
        self.records.len() as usize
    }

    /// Resolves the `n`-th script without moving the enumeration.
    pub fn nth(&self, n: usize) -> (r: Option<Script<'a>>)
        ensures
            (match r {
                Some(s) => spec_script_at(self@, n as int) == Some(s@),
                None => spec_script_at(self@, n as int) is None,
            }),
    {
        if n > 0xFFFF {
            return None;
        }
        let record = match self.records.get(n as u16) {
            Some(rec) => rec,
            None => {
                return None;
            },
        };
        if (record.offset.0 as usize) > self.data.len() {
            return None;
        }
        let sd = vstd::slice::slice_subrange(
            self.data,
            record.offset.0 as usize,
            self.data.len(),
        );
        let mut s = Stream::new(sd);
        let default_lang = match s.read::<Option<Offset16>>() {
            Some(v) => v,
            None => {
                return None;
            },
        };
        let count = match s.read::<u16>() {
            Some(v) => v,
            None => {
                return None;
            },
        };
        let records = match s.read_array16::<Record>(count) {
            Some(a) => a,
            None => {
                return None;
            },
        };
        Some(Script { data: sd, script: record.tag, default_lang_offset: default_lang, records })
    }

    /// Resolves the script at the current position and steps past it.
    pub fn next(&mut self) -> (r: Option<Script<'a>>)
        ensures
            final(self)@.data == old(self)@.data,
            final(self)@.records == old(self)@.records,
            old(self)@.index < 0xFFFF ==> final(self)@.index == old(self)@.index + 1 && (match r {
                Some(s) => spec_script_at(old(self)@, old(self)@.index) == Some(s@),
                None => spec_script_at(old(self)@, old(self)@.index) is None,
            }),
            old(self)@.index == 0xFFFF ==> r is None && final(self)@.index == old(self)@.index,
    {
        if self.index < 0xFFFF {
            let idx = self.index;
            self.index = self.index + 1;
            self.nth(idx as usize)
        } else {
            None
        }
    }
}

/// A script: a tag, an optional default language, and a sorted-by-tag list
/// of language records.
pub struct Script<'a> {
    data: &'a [u8],
    script: Tag,
    default_lang_offset: Option<Offset16>,
    records: LazyArray16<'a, Record>,
}

impl<'a> Clone for Script<'a> {
    fn clone(&self) -> (r: Self)
        ensures
            r == *self,
    {
        Script {
            data: self.data,
            script: self.script,
            default_lang_offset: self.default_lang_offset,
            records: self.records,
        }
    }
}

impl<'a> Copy for Script<'a> {

}

impl<'a> View for Script<'a> {
    type V = ScriptView;

    closed spec fn view(&self) -> ScriptView {
        ScriptView {
            data: self.data@,
            tag: self.script,
            default_lang_offset: self.default_lang_offset,
            records: self.records@,
        }
    }
}

impl<'a> Script<'a> {
    /// The script's tag.
    pub fn tag(&self) -> (r: Tag)
        ensures
            r == self@.tag,
    {
        self.script
    }

    /// Resolves the script's default language, absent when the script
    /// declares none or the table cannot be read.
    pub fn default_language(&self) -> (r: Option<Language<'a>>)
        ensures
            (match r {
                Some(l) => spec_default_language(self@) == Some(l@),
                None => spec_default_language(self@) is None,
            }),
    {
        let off = match self.default_lang_offset {
            Some(off) => off,
            None => {
                return None;
            },
        };
        if (off.0 as usize) > self.data.len() {
            return None;
        }
        let d = vstd::slice::slice_subrange(self.data, off.0 as usize, self.data.len());
        parse_lang_sys_table(d, Tag(0x44464C54))
    }

    /// The script's language list.
    pub fn languages(&self) -> (r: Languages<'a>)
        ensures
            r@ == spec_languages_of(self@),
    {
        Languages { data: self.data, records: self.records, index: 0 }
    }

    /// Resolves the language at `index`, the same element `languages` yields
    /// at that position.
    pub fn language_at(&self, index: LanguageIndex) -> (r: Option<Language<'a>>)
        ensures
            (match r {
                Some(l) => spec_language_at(spec_languages_of(self@), index.0 as int) == Some(l@),
                None => spec_language_at(spec_languages_of(self@), index.0 as int) is None,
            }),
    {
        self.languages().nth(index.0 as usize)
    }

    /// Finds a language by tag with a binary search over the language
    /// records, which the format keeps in ascending tag order.
    ///
    /// A hit carries the record's position, so it resolves to the same
    /// element `language_at` yields there. On strictly sorted records a miss
    /// proves that no language record carries the tag and resolves.
    pub fn language_by_tag(&self, tag: Tag) -> (r: Option<(LanguageIndex, Language<'a>)>)
        ensures
            (match r {
                Some(p) => {
                    &&& (p.0.0 as int) < count16(self@.records, 6)
                    &&& record_at(self@.records, p.0.0 as int).tag == tag
                    &&& spec_language_at(spec_languages_of(self@), p.0.0 as int) == Some(p.1@)
                },
                None => true,
            }),
            tags_strictly_sorted(self@.records) && r is None ==> (forall|i: int|
                0 <= i < count16(self@.records, 6) ==> !(#[trigger] record_at(
                    self@.records,
                    i,
                ).tag == tag && spec_language_at(spec_languages_of(self@), i) is Some)),
    {
        proof {
            if tags_strictly_sorted(self@.records) {
                assert forall|i: int, j: int|
                    0 <= i <= j < self.records.spec_len() implies #[trigger] self.records.spec_get(
                    i,
                ).spec_key() <= #[trigger] self.records.spec_get(j).spec_key() by {
                    assert(self.records.spec_get(i) == record_at(self@.records, i));
                    assert(self.records.spec_get(j) == record_at(self@.records, j));
                    if i < j {
                        assert(record_at(self@.records, i).tag.0 < record_at(
                            self@.records,
                            j,
                        ).tag.0);
                    }
                }
            }
        }
        let found = self.records.binary_search_by(tag.0 as u64);
        let (idx, _) = match found {
            Some(p) => p,
            None => {
                proof {
                    if tags_strictly_sorted(self@.records) {
                        assert forall|i: int| 0 <= i < count16(self@.records, 6) implies !(
                        #[trigger] record_at(self@.records, i).tag == tag && spec_language_at(
                            spec_languages_of(self@),
                            i,
                        ) is Some) by {
                            if record_at(self@.records, i).tag == tag {
                                assert(self.records.spec_get(i) == record_at(self@.records, i));
                                assert(self.records.spec_get(i).spec_key() == tag.0 as u64);
                            }
                        }
                    }
                }
                return None;
            },
        };
        match self.language_at(LanguageIndex(idx)) {
            Some(lang) => Some((LanguageIndex(idx), lang)),
            None => {
                proof {
                    if tags_strictly_sorted(self@.records) {
                        assert forall|i: int| 0 <= i < count16(self@.records, 6) implies !(
                        #[trigger] record_at(self@.records, i).tag == tag && spec_language_at(
                            spec_languages_of(self@),
                            i,
                        ) is Some) by {
                            if record_at(self@.records, i).tag == tag && i != idx as int {
                                assert(self.records.spec_get(i) == record_at(self@.records, i));
                                assert(self.records.spec_get(idx as int) == record_at(
                                    self@.records,
                                    idx as int,
                                ));
                                if i < idx as int {
                                    assert(record_at(self@.records, i).tag.0 < record_at(
                                        self@.records,
                                        idx as int,
                                    ).tag.0);
                                } else {
                                    assert(record_at(self@.records, idx as int).tag.0 < record_at(
                                        self@.records,
                                        i,
                                    ).tag.0);
                                }
                            }
                        }
                    }
                }
                None
            },
        }
    }
}

/// An enumeration of a script's languages.
pub struct Languages<'a> {
    data: &'a [u8],
    records: LazyArray16<'a, Record>,
    index: u16,
}

impl<'a> Clone for Languages<'a> {
    fn clone(&self) -> (r: Self)
        ensures
            r == *self,
    {
        Languages { data: self.data, records: self.records, index: self.index }
    }
}

impl<'a> Copy for Languages<'a> {

}

impl<'a> View for Languages<'a> {
    type V = ListView;

    closed spec fn view(&self) -> ListView {
        ListView { data: self.data@, records: self.records@, index: self.index as int }
    }
}

impl<'a> Languages<'a> {
    /// The number of languages in the list.
    pub fn count(&self) -> (r: usize)
        ensures
            r as int == count16(self@.records, 6),
    {
        self.records.len() as usize
    }

    /// Resolves the `n`-th language without moving the enumeration.
    pub fn nth(&self, n: usize) -> (r: Option<Language<'a>>)
        ensures
            (match r {
                Some(l) => spec_language_at(self@, n as int) == Some(l@),
                None => spec_language_at(self@, n as int) is None,
            }),
    {
        if n > 0xFFFF {
            return None;
        }
        let record = match self.records.get(n as u16) {
            Some(rec) => rec,
            None => {
                return None;
            },
        };
        if (record.offset.0 as usize) > self.data.len() {
            return None;
        }
        let d = vstd::slice::slice_subrange(
            self.data,
            record.offset.0 as usize,
            self.data.len(),
        );
        parse_lang_sys_table(d, record.tag)
    }

    /// Resolves the language at the current position and steps past it.
    pub fn next(&mut self) -> (r: Option<Language<'a>>)
        ensures
            final(self)@.data == old(self)@.data,
            final(self)@.records == old(self)@.records,
            old(self)@.index < 0xFFFF ==> final(self)@.index == old(self)@.index + 1 && (match r {
                Some(l) => spec_language_at(old(self)@, old(self)@.index) == Some(l@),
                None => spec_language_at(old(self)@, old(self)@.index) is None,
            }),
            old(self)@.index == 0xFFFF ==> r is None && final(self)@.index == old(self)@.index,
    {
        if self.index < 0xFFFF {
            let idx = self.index;
            self.index = self.index + 1;
            self.nth(idx as usize)
        } else {
            None
        }
    }
}

/// Decodes a language-system table: a reserved field, a required-feature
/// index with `0xFFFF` meaning none, and a feature-index array.
fn parse_lang_sys_table<'a>(data: &'a [u8], tag: Tag) -> (r: Option<Language<'a>>)
    ensures
        (match r {
            Some(l) => spec_lang_sys(data@, tag) == Some(l@),
            None => spec_lang_sys(data@, tag) is None,
        }),
{
    let mut s = Stream::new(data);
    s.skip::<u16>();
    let rfi = match s.read::<u16>() {
        Some(v) => v,
        None => {
            return None;
        },
    };
    let required_feature_index = if rfi == 0xFFFF {
        None
    } else {
        Some(FeatureIndex(rfi))
    };
    let count = match s.read::<u16>() {
        Some(v) => v,
        None => {
            return None;
        },
    };
    let feature_indices = match s.read_array16::<FeatureIndex>(count) {
        Some(a) => a,
        None => {
            return None;
        },
    };
    Some(Language { tag, required_feature_index, feature_indices })
}

/// A language system: a tag, an optional required feature, and the feature
/// indices the language selects.
pub struct Language<'a> {
    /// The language's tag.
    pub tag: Tag,
    /// The required feature's index, absent when the wire value is the
    /// `0xFFFF` sentinel.
    pub required_feature_index: Option<FeatureIndex>,
    /// The list of feature indices associated with this language.
    pub feature_indices: LazyArray16<'a, FeatureIndex>,
}

impl<'a> Clone for Language<'a> {
    fn clone(&self) -> (r: Self)
        ensures
            r == *self,
    {
        Language {
            tag: self.tag,
            required_feature_index: self.required_feature_index,
            feature_indices: self.feature_indices,
        }
    }
}

impl<'a> Copy for Language<'a> {

}

impl<'a> View for Language<'a> {
    type V = LanguageView;

    closed spec fn view(&self) -> LanguageView {
        LanguageView {
            tag: self.tag,
            required_feature_index: self.required_feature_index,
            feature_indices: self.feature_indices@,
        }
    }
}

/// The mathematical content of a resolved feature table.
pub ghost struct FeatureView {
    pub tag: Tag,
    pub lookup_indices: Seq<u8>,
}

/// The feature table found at the start of `d`: a reserved parameters
/// offset, then a 16-bit-counted lookup-index array.
pub open spec fn spec_feature_table(d: Seq<u8>, tag: Tag) -> Option<FeatureView> {
    if 4 <= d.len() {
        let count = be16(d, 2) as int;
        if 4 + count * 2 <= d.len() {
            Some(FeatureView { tag: tag, lookup_indices: d.subrange(4, 4 + count * 2) })
        } else {
            None
        }
    } else {
        None
    }
}

/// The feature the `n`-th record of a feature list resolves to.
pub open spec fn spec_feature_at(v: ListView, n: int) -> Option<FeatureView> {
    if 0 <= n < count16(v.records, 6) {
        let rec = record_at(v.records, n);
        if rec.offset.0 as int <= v.data.len() {
            spec_feature_table(v.data.subrange(rec.offset.0 as int, v.data.len() as int), rec.tag)
        } else {
            None
        }
    } else {
        None
    }
}

/// An enumeration of a table's features.
pub struct Features<'a> {
    data: &'a [u8],
    records: LazyArray16<'a, Record>,
    index: u16,
}

impl<'a> Clone for Features<'a> {
    fn clone(&self) -> (r: Self)
        ensures
            r == *self,
    {
        Features { data: self.data, records: self.records, index: self.index }
    }
}

impl<'a> Copy for Features<'a> {

}

impl<'a> View for Features<'a> {
    type V = ListView;

    closed spec fn view(&self) -> ListView {
        ListView { data: self.data@, records: self.records@, index: self.index as int }
    }
}

impl<'a> Features<'a> {
    /// The number of features in the list.
    pub fn count(&self) -> (r: usize)
        ensures
            r as int == count16(self@.records, 6),
    {
        self.records.len() as usize
    }

    /// Resolves the `n`-th feature without moving the enumeration.
    pub fn nth(&self, n: usize) -> (r: Option<Feature<'a>>)
        ensures
            (match r {
                Some(f) => spec_feature_at(self@, n as int) == Some(f@),
                None => spec_feature_at(self@, n as int) is None,
            }),
    {
        if n > 0xFFFF {
            return None;
        }
        let record = match self.records.get(n as u16) {
            Some(rec) => rec,
            None => {
                return None;
            },
        };
        if (record.offset.0 as usize) > self.data.len() {
            return None;
        }
        let d = vstd::slice::slice_subrange(
            self.data,
            record.offset.0 as usize,
            self.data.len(),
        );
        let mut s = Stream::new(d);
        s.skip::<Offset16>();
        let count = match s.read::<u16>() {
            Some(v) => v,
            None => {
                return None;
            },
        };
        let lookup_indices = match s.read_array16::<LookupIndex>(count) {
            Some(a) => a,
            None => {
                return None;
            },
        };
        Some(Feature { tag: record.tag, lookup_indices })
    }

    /// Resolves the feature at the current position and steps past it.
    pub fn next(&mut self) -> (r: Option<Feature<'a>>)
        ensures
            final(self)@.data == old(self)@.data,
            final(self)@.records == old(self)@.records,
            old(self)@.index < 0xFFFF ==> final(self)@.index == old(self)@.index + 1 && (match r {
                Some(f) => spec_feature_at(old(self)@, old(self)@.index) == Some(f@),
                None => spec_feature_at(old(self)@, old(self)@.index) is None,
            }),
            old(self)@.index == 0xFFFF ==> r is None && final(self)@.index == old(self)@.index,
    {
        if self.index < 0xFFFF {
            let idx = self.index;
            self.index = self.index + 1;
            self.nth(idx as usize)
        } else {
            None
        }
    }

    /// Finds a feature by tag with a binary search over the feature records,
    /// which the format keeps in ascending tag order.
    ///
    /// A hit carries the record's position, so it resolves to the same
    /// element `nth` yields there. On strictly sorted records a miss proves
    /// that no feature record carries the tag and resolves.
    pub fn by_tag(&self, tag: Tag) -> (r: Option<(FeatureIndex, Feature<'a>)>)
        ensures
            (match r {
                Some(p) => {
                    &&& (p.0.0 as int) < count16(self@.records, 6)
                    &&& record_at(self@.records, p.0.0 as int).tag == tag
                    &&& spec_feature_at(self@, p.0.0 as int) == Some(p.1@)
                },
                None => true,
            }),
            tags_strictly_sorted(self@.records) && r is None ==> (forall|i: int|
                0 <= i < count16(self@.records, 6) ==> !(#[trigger] record_at(
                    self@.records,
                    i,
                ).tag == tag && spec_feature_at(self@, i) is Some)),
    {
        proof {
            if tags_strictly_sorted(self@.records) {
                assert forall|i: int, j: int|
                    0 <= i <= j < self.records.spec_len() implies #[trigger] self.records.spec_get(
                    i,
                ).spec_key() <= #[trigger] self.records.spec_get(j).spec_key() by {
                    assert(self.records.spec_get(i) == record_at(self@.records, i));
                    assert(self.records.spec_get(j) == record_at(self@.records, j));
                    if i < j {
                        assert(record_at(self@.records, i).tag.0 < record_at(
                            self@.records,
                            j,
                        ).tag.0);
                    }
                }
            }
        }
        let found = self.records.binary_search_by(tag.0 as u64);
        let (idx, _) = match found {
            Some(p) => p,
            None => {
                proof {
                    if tags_strictly_sorted(self@.records) {
                        assert forall|i: int| 0 <= i < count16(self@.records, 6) implies !(
                        #[trigger] record_at(self@.records, i).tag == tag && spec_feature_at(
                            self@,
                            i,
                        ) is Some) by {
                            if record_at(self@.records, i).tag == tag {
                                assert(self.records.spec_get(i) == record_at(self@.records, i));
                                assert(self.records.spec_get(i).spec_key() == tag.0 as u64);
                            }
                        }
                    }
                }
                return None;
            },
        };
        match self.nth(idx as usize) {
            Some(f) => Some((FeatureIndex(idx), f)),
            None => {
                proof {
                    if tags_strictly_sorted(self@.records) {
                        assert forall|i: int| 0 <= i < count16(self@.records, 6) implies !(
                        #[trigger] record_at(self@.records, i).tag == tag && spec_feature_at(
                            self@,
                            i,
                        ) is Some) by {
                            if record_at(self@.records, i).tag == tag && i != idx as int {
                                assert(self.records.spec_get(i) == record_at(self@.records, i));
                                assert(self.records.spec_get(idx as int) == record_at(
                                    self@.records,
                                    idx as int,
                                ));
                                if i < idx as int {
                                    assert(record_at(self@.records, i).tag.0 < record_at(
                                        self@.records,
                                        idx as int,
                                    ).tag.0);
                                } else {
                                    assert(record_at(self@.records, idx as int).tag.0 < record_at(
                                        self@.records,
                                        i,
                                    ).tag.0);
                                }
                            }
                        }
                    }
                }
                None
            },
        }
    }
}

/// A feature: a tag and the lookup indices the feature selects.
pub struct Feature<'a> {
    /// The feature's tag; the zero tag on a feature reached through a
    /// substitution table.
    pub tag: Tag,
    /// The list of lookup indices associated with this feature.
    pub lookup_indices: LazyArray16<'a, LookupIndex>,
}

impl<'a> Clone for Feature<'a> {
    fn clone(&self) -> (r: Self)
        ensures
            r == *self,
    {
        Feature { tag: self.tag, lookup_indices: self.lookup_indices }
    }
}

impl<'a> Copy for Feature<'a> {

}

impl<'a> View for Feature<'a> {
    type V = FeatureView;

    closed spec fn view(&self) -> FeatureView {
        FeatureView { tag: self.tag, lookup_indices: self.lookup_indices@ }
    }
}

/// The mathematical content of a resolved lookup table.
pub ghost struct LookupView {
    pub lookup_type: u16,
    pub lookup_flag: u16,
    pub data: Seq<u8>,
    pub offsets: Seq<u8>,
    pub mark_filtering_set: u16,
}

/// The lookup table found at the start of `d`: type, flags, a 16-bit-counted
/// subtable offset array resolving against `d` itself, then the
/// mark-filtering-set id.
pub open spec fn spec_lookup_table(d: Seq<u8>) -> Option<LookupView> {
    if 6 <= d.len() {
        let count = be16(d, 4) as int;
        if 6 + count * 2 + 2 <= d.len() {
            Some(
                LookupView {
                    lookup_type: be16(d, 0),
                    lookup_flag: be16(d, 2),
                    data: d,
                    offsets: d.subrange(6, 6 + count * 2),
                    mark_filtering_set: be16(d, 6 + count * 2),
                },
            )
        } else {
            None
        }
    } else {
        None
    }
}

/// The lookup the `n`-th record of a lookup list resolves to.
pub open spec fn spec_lookup_at(v: ListView, n: int) -> Option<LookupView> {
    if 0 <= n < count16(v.records, 6) {
        let rec = record_at(v.records, n);
        if rec.offset.0 as int <= v.data.len() {
            spec_lookup_table(v.data.subrange(rec.offset.0 as int, v.data.len() as int))
        } else {
            None
        }
    } else {
        None
    }
}

/// An enumeration of a table's lookups.
pub struct Lookups<'a> {
    data: &'a [u8],
    records: LazyArray16<'a, Record>,
    index: u16,
}

impl<'a> Clone for Lookups<'a> {
    fn clone(&self) -> (r: Self)
        ensures
            r == *self,
    {
        Lookups { data: self.data, records: self.records, index: self.index }
    }
}

impl<'a> Copy for Lookups<'a> {

}

impl<'a> View for Lookups<'a> {
    type V = ListView;

    closed spec fn view(&self) -> ListView {
        ListView { data: self.data@, records: self.records@, index: self.index as int }
    }
}

impl<'a> Lookups<'a> {
    /// The number of lookups in the list.
    pub fn count(&self) -> (r: usize)
        ensures
            r as int == count16(self@.records, 6),
    {
        self.records.len() as usize
    }

    /// Resolves the `n`-th lookup without moving the enumeration.
    pub fn nth(&self, n: usize) -> (r: Option<Lookup<'a>>)
        ensures
            (match r {
                Some(l) => spec_lookup_at(self@, n as int) == Some(l@),
                None => spec_lookup_at(self@, n as int) is None,
            }),
    {
        if n > 0xFFFF {
            return None;
        }
        let record = match self.records.get(n as u16) {
            Some(rec) => rec,
            None => {
                return None;
            },
        };
        if (record.offset.0 as usize) > self.data.len() {
            return None;
        }
        let d = vstd::slice::slice_subrange(
            self.data,
            record.offset.0 as usize,
            self.data.len(),
        );
        let mut s = Stream::new(d);
        let lookup_type = match s.read::<u16>() {
            Some(v) => v,
            None => {
                return None;
            },
        };
        let lookup_flag = match s.read::<u16>() {
            Some(v) => v,
            None => {
                return None;
            },
        };
        let count = match s.read::<u16>() {
            Some(v) => v,
            None => {
                return None;
            },
        };
        let offsets = match s.read_offsets16(count, d) {
            Some(o) => o,
            None => {
                return None;
            },
        };
        let mark_filtering_set = match s.read::<u16>() {
            Some(v) => v,
            None => {
                return None;
            },
        };
        Some(Lookup { lookup_type, lookup_flag, offsets, mark_filtering_set })
    }

    /// Resolves the lookup at the current position and steps past it.
    pub fn next(&mut self) -> (r: Option<Lookup<'a>>)
        ensures
            final(self)@.data == old(self)@.data,
            final(self)@.records == old(self)@.records,
            old(self)@.index < 0xFFFF ==> final(self)@.index == old(self)@.index + 1 && (match r {
                Some(l) => spec_lookup_at(old(self)@, old(self)@.index) == Some(l@),
                None => spec_lookup_at(old(self)@, old(self)@.index) is None,
            }),
            old(self)@.index == 0xFFFF ==> r is None && final(self)@.index == old(self)@.index,
    {
        if self.index < 0xFFFF {
            let idx = self.index;
            self.index = self.index + 1;
            self.nth(idx as usize)
        } else {
            None
        }
    }
}

/// A lookup: a type code, a flag bitfield, a mark-filtering-set id, and the
/// offsets of its type-specific subtables.
pub struct Lookup<'a> {
    lookup_type: u16,
    lookup_flag: u16,
    offsets: Offsets16<'a, Offset16>,
    mark_filtering_set: u16,
}

impl<'a> Clone for Lookup<'a> {
    fn clone(&self) -> (r: Self)
        ensures
            r == *self,
    {
        Lookup {
            lookup_type: self.lookup_type,
            lookup_flag: self.lookup_flag,
            offsets: self.offsets,
            mark_filtering_set: self.mark_filtering_set,
        }
    }
}

impl<'a> Copy for Lookup<'a> {

}

impl<'a> View for Lookup<'a> {
    type V = LookupView;

    closed spec fn view(&self) -> LookupView {
        LookupView {
            lookup_type: self.lookup_type,
            lookup_flag: self.lookup_flag,
            data: self.offsets.spec_base(),
            offsets: self.offsets.spec_offsets(),
            mark_filtering_set: self.mark_filtering_set,
        }
    }
}

impl<'a> Lookup<'a> {
    /// The lookup's type code.
    pub fn lookup_type(&self) -> (r: u16)
        ensures
            r == self@.lookup_type,
    {
        self.lookup_type
    }

    /// The lookup's flag bitfield.
    pub fn lookup_flag(&self) -> (r: u16)
        ensures
            r == self@.lookup_flag,
    {
        self.lookup_flag
    }

    /// The lookup's mark-filtering-set id.
    pub fn mark_filtering_set(&self) -> (r: u16)
        ensures
            r == self@.mark_filtering_set,
    {
        self.mark_filtering_set
    }

    /// Starts an iterator over the lookup's non-null subtable slices; the
    /// subtables' contents are opaque to this module.
    pub fn subtables(&self) -> (r: OffsetsIter16<'a, Offset16>)
        ensures
            r.spec_offsets().spec_base() == self@.data,
            r.spec_offsets().spec_offsets() == self@.offsets,
            r.spec_pos() == 0,
    {
        self.offsets.iter()
    }
}

/// A feature-variation record: raw offsets to a condition set and to a
/// feature-table substitution, both relative to the variations list.
#[derive(Clone, Copy, PartialEq, Eq, Structural, Debug)]
pub struct FeatureVariationRecord {
    pub condition_set_offset: Offset32,
    pub feature_table_substitution_offset: Offset32,
}

impl FromData for FeatureVariationRecord {
    open spec fn spec_size() -> int {
        8
    }

    open spec fn spec_parse(data: Seq<u8>) -> FeatureVariationRecord {
        FeatureVariationRecord {
            condition_set_offset: Offset32(be32(data, 0)),
            feature_table_substitution_offset: Offset32(be32(data, 4)),
        }
    }

    proof fn size_facts() {
    }

    fn size() -> usize {
        8
    }

    fn parse(data: &[u8]) -> (r: Option<FeatureVariationRecord>) {
        if data.len() == 8 {
            let a = match Stream::read_at::<u32>(data, 0) {
                Some(n) => n,
                None => {
                    return None;
                },
            };
            let b = match Stream::read_at::<u32>(data, 4) {
                Some(n) => n,
                None => {
                    return None;
                },
            };
            Some(
                FeatureVariationRecord {
                    condition_set_offset: Offset32(a),
                    feature_table_substitution_offset: Offset32(b),
                },
            )
        } else {
            None
        }
    }
}

/// The `n`-th feature-variation record stored in `recs`.
pub open spec fn variation_record_at(recs: Seq<u8>, n: int) -> FeatureVariationRecord {
    FeatureVariationRecord::spec_parse(recs.subrange(n * 8, n * 8 + 8))
}

/// The mathematical content of one feature variation: the declaring list's
/// buffer and the record's two raw offsets.
pub ghost struct VariationView {
    pub data: Seq<u8>,
    pub condition_set_offset: Offset32,
    pub feature_table_substitution_offset: Offset32,
}

/// The feature variation the `n`-th record of a variations list carries;
/// nothing beyond the record itself is decoded here.
pub open spec fn spec_variation_at(v: ListView, n: int) -> Option<VariationView> {
    if 0 <= n < count32(v.records, 8) {
        let rec = variation_record_at(v.records, n);
        Some(
            VariationView {
                data: v.data,
                condition_set_offset: rec.condition_set_offset,
                feature_table_substitution_offset: rec.feature_table_substitution_offset,
            },
        )
    } else {
        None
    }
}

/// An enumeration of a table's feature variations; empty when the table
/// declares none.
pub struct FeatureVariations<'a> {
    data: &'a [u8],
    records: LazyArray32<'a, FeatureVariationRecord>,
    index: u32,
}

impl<'a> Clone for FeatureVariations<'a> {
    fn clone(&self) -> (r: Self)
        ensures
            r == *self,
    {
        FeatureVariations { data: self.data, records: self.records, index: self.index }
    }
}

impl<'a> Copy for FeatureVariations<'a> {

}

impl<'a> View for FeatureVariations<'a> {
    type V = ListView;

    closed spec fn view(&self) -> ListView {
        ListView { data: self.data@, records: self.records@, index: self.index as int }
    }
}

impl<'a> FeatureVariations<'a> {
    /// The number of feature variations in the list.
    pub fn count(&self) -> (r: u32)
        ensures
            r as int == count32(self@.records, 8),
    {
        self.records.len()
    }

    /// Reads the `n`-th variation record without moving the enumeration.
    pub fn nth(&self, n: usize) -> (r: Option<FeatureVariation<'a>>)
        ensures
            (match r {
                Some(v) => spec_variation_at(self@, n as int) == Some(v@),
                None => spec_variation_at(self@, n as int) is None,
            }),
    {
        if n as u64 > 0xFFFF_FFFFu64 {
            return None;
        }
        let record = match self.records.get(n as u32) {
            Some(rec) => rec,
            None => {
                return None;
            },
        };
        Some(
            FeatureVariation {
                data: self.data,
                condition_set_offset: record.condition_set_offset,
                feature_table_substitution_offset: record.feature_table_substitution_offset,
            },
        )
    }

    /// Reads the variation record at the current position and steps past it.
    pub fn next(&mut self) -> (r: Option<FeatureVariation<'a>>)
        ensures
            final(self)@.data == old(self)@.data,
            final(self)@.records == old(self)@.records,
            old(self)@.index < 0xFFFF_FFFF ==> final(self)@.index == old(self)@.index + 1 && (
            match r {
                Some(v) => spec_variation_at(old(self)@, old(self)@.index) == Some(v@),
                None => spec_variation_at(old(self)@, old(self)@.index) is None,
            }),
            old(self)@.index == 0xFFFF_FFFF ==> r is None && final(self)@.index == old(
                self,
            )@.index,
    {
        if self.index < 0xFFFF_FFFF {
            let idx = self.index;
            self.index = self.index + 1;
            self.nth(idx as usize)
        } else {
            None
        }
    }
}

/// An axis-range condition on one normalized coordinate; only format `1` is
/// recognized.
#[derive(Clone, Copy, PartialEq, Eq, Structural, Debug)]
pub struct Condition {
    pub format: u16,
    pub axis_index: u16,
    pub filter_range_min_value: i16,
    pub filter_range_max_value: i16,
}

impl FromData for Condition {
    open spec fn spec_size() -> int {
        8
    }

    open spec fn spec_parse(data: Seq<u8>) -> Condition {
        Condition {
            format: be16(data, 0),
            axis_index: be16(data, 2),
            filter_range_min_value: crate::parser::be16_signed(data, 4),
            filter_range_max_value: crate::parser::be16_signed(data, 6),
        }
    }

    proof fn size_facts() {
    }

    fn size() -> usize {
        8
    }

    fn parse(data: &[u8]) -> (r: Option<Condition>) {
        if data.len() == 8 {
            let format = match Stream::read_at::<u16>(data, 0) {
                Some(n) => n,
                None => {
                    return None;
                },
            };
            let axis_index = match Stream::read_at::<u16>(data, 2) {
                Some(n) => n,
                None => {
                    return None;
                },
            };
            let min = match Stream::read_at::<i16>(data, 4) {
                Some(n) => n,
                None => {
                    return None;
                },
            };
            let max = match Stream::read_at::<i16>(data, 6) {
                Some(n) => n,
                None => {
                    return None;
                },
            };
            Some(
                Condition {
                    format,
                    axis_index,
                    filter_range_min_value: min,
                    filter_range_max_value: max,
                },
            )
        } else {
            None
        }
    }
}

/// Whether a condition accepts `coords`: the coordinate at the condition's
/// axis, `0` when the axis lies beyond the supplied vector, falls in the
/// condition's inclusive range.
pub open spec fn spec_condition_holds(c: Condition, coords: Seq<NormalizedCoord>) -> bool {
    let coord = if (c.axis_index as int) < coords.len() {
        coords[c.axis_index as int].0
    } else {
        0i16
    };
    c.filter_range_min_value <= coord && coord <= c.filter_range_max_value
}

impl Condition {
    /// Evaluates the condition against a normalized coordinate vector; an
    /// axis beyond the vector reads as coordinate `0`.
    pub fn evaluate(&self, coordinates: &[NormalizedCoord]) -> (r: bool)
        ensures
            r == spec_condition_holds(*self, coordinates@),
    {
        let coord = if (self.axis_index as usize) < coordinates.len() {
            vstd::slice::slice_index_get(coordinates, self.axis_index as usize).get()
        } else {
            0i16
        };
        self.filter_range_min_value <= coord && coord <= self.filter_range_max_value
    }
}

/// The condition set found at byte distance `off` in `d`: a 16-bit count and
/// that many 32-bit condition offsets. Yields the set's buffer and the
/// offsets' bytes.
pub open spec fn spec_condition_set(d: Seq<u8>, off: int) -> Option<(Seq<u8>, Seq<u8>)> {
    if 0 <= off <= d.len() {
        let cd = d.subrange(off, d.len() as int);
        if 2 <= cd.len() {
            let count = be16(cd, 0) as int;
            if 2 + count * 4 <= cd.len() {
                Some((cd, cd.subrange(2, 2 + count * 4)))
            } else {
                None
            }
        } else {
            None
        }
    } else {
        None
    }
}

/// The `n`-th condition of a condition set: the offset at position `n`
/// resolved against the set's buffer, recognized only when the condition is
/// readable and carries format `1`.
pub open spec fn spec_condition_at(cd: Seq<u8>, offs: Seq<u8>, n: int) -> Option<Condition> {
    if 0 <= n < count16(offs, 4) {
        let off = Offset32::spec_parse(offs.subrange(n * 4, n * 4 + 4)).0 as int;
        if off + 8 <= cd.len() {
            let c = Condition::spec_parse(cd.subrange(off, off + 8));
            if c.format == 1 {
                Some(c)
            } else {
                None
            }
        } else {
            None
        }
    } else {
        None
    }
}

/// Whether a feature variation applies under `coords`: its condition set
/// resolves, and every condition in it is recognized and accepts the
/// coordinates. An unreadable set or an unrecognized condition format makes
/// the variation inapplicable, never an error.
pub open spec fn spec_evaluate(v: VariationView, coords: Seq<NormalizedCoord>) -> bool {
    match spec_condition_set(v.data, v.condition_set_offset.0 as int) {
        Some(cs) => forall|i: int|
            0 <= i < count16(cs.1, 4) ==> (match #[trigger] spec_condition_at(cs.0, cs.1, i) {
                Some(c) => spec_condition_holds(c, coords),
                None => false,
            }),
        None => false,
    }
}

/// The feature-table substitution list found at byte distance `off` in `d`:
/// a version pair, a 16-bit count, and that many 6-byte substitution
/// records. Yields the list's buffer and the records' bytes.
pub open spec fn spec_substitutions_at(d: Seq<u8>, off: int) -> Option<(Seq<u8>, Seq<u8>)> {
    if 0 <= off <= d.len() {
        let sd = d.subrange(off, d.len() as int);
        if 6 <= sd.len() {
            let count = be16(sd, 4) as int;
            if 6 + count * 6 <= sd.len() {
                Some((sd, sd.subrange(6, 6 + count * 6)))
            } else {
                None
            }
        } else {
            None
        }
    } else {
        None
    }
}

/// One feature variation: the declaring buffer plus the two raw offsets;
/// condition evaluation and substitution enumeration are deferred.
pub struct FeatureVariation<'a> {
    data: &'a [u8],
    condition_set_offset: Offset32,
    feature_table_substitution_offset: Offset32,
}

impl<'a> Clone for FeatureVariation<'a> {
    fn clone(&self) -> (r: Self)
        ensures
            r == *self,
    {
        FeatureVariation {
            data: self.data,
            condition_set_offset: self.condition_set_offset,
            feature_table_substitution_offset: self.feature_table_substitution_offset,
        }
    }
}

impl<'a> Copy for FeatureVariation<'a> {

}

impl<'a> View for FeatureVariation<'a> {
    type V = VariationView;

    closed spec fn view(&self) -> VariationView {
        VariationView {
            data: self.data@,
            condition_set_offset: self.condition_set_offset,
            feature_table_substitution_offset: self.feature_table_substitution_offset,
        }
    }
}

impl<'a> FeatureVariation<'a> {
    /// Resolves the variation's condition set.
    fn condition_set(&self) -> (r: Option<ConditionSet<'a>>)
        ensures
            (match r {
                Some(cs) => spec_condition_set(self@.data, self@.condition_set_offset.0 as int)
                    == Some((cs@.data, cs@.records)),
                None => spec_condition_set(self@.data, self@.condition_set_offset.0 as int)
                    is None,
            }),
    {
        if (self.condition_set_offset.0 as usize) > self.data.len() {
            return None;
        }
        let cd = vstd::slice::slice_subrange(
            self.data,
            self.condition_set_offset.0 as usize,
            self.data.len(),
        );
        let mut s = Stream::new(cd);
        let count = match s.read::<u16>() {
            Some(v) => v,
            None => {
                return None;
            },
        };
        let offsets = match s.read_array16::<Offset32>(count) {
            Some(a) => a,
            None => {
                return None;
            },
        };
        Some(ConditionSet { data: cd, offsets, index: 0 })
    }

    /// Evaluates the variation against a normalized coordinate vector.
    ///
    /// An empty condition set accepts every vector; an unreadable set or an
    /// unrecognized condition format rejects every vector, so that an
    /// unverifiable variation is never applied.
    pub fn evaluate(&self, coordinates: &[NormalizedCoord]) -> (r: bool)
        ensures
            r == spec_evaluate(self@, coordinates@),
    {
        let cs = match self.condition_set() {
            Some(cs) => cs,
            None => {
                return false;
            },
        };
        let count = cs.offsets.len();
        let mut i: u16 = 0;
        while i < count
            invariant
                count as int == count16(cs@.records, 4),
                spec_condition_set(self@.data, self@.condition_set_offset.0 as int) == Some(
                    (cs@.data, cs@.records),
                ),
                i <= count,
                forall|j: int|
                    0 <= j < i as int ==> (match #[trigger] spec_condition_at(
                        cs@.data,
                        cs@.records,
                        j,
                    ) {
                        Some(c) => spec_condition_holds(c, coordinates@),
                        None => false,
                    }),
            decreases count as int - i as int,
        {
            let c = match cs.condition_at(i) {
                Some(c) => c,
                None => {
                    return false;
                },
            };
            if !c.evaluate(coordinates) {
                return false;
            }
            i = i + 1;
        }
        true
    }

    /// Resolves the variation's feature-table substitution list.
    pub fn substitutions(&self) -> (r: Option<FeatureSubstitutions<'a>>)
        ensures
            (match r {
                Some(s) => spec_substitutions_at(
                    self@.data,
                    self@.feature_table_substitution_offset.0 as int,
                ) == Some((s@.data, s@.records)),
                None => spec_substitutions_at(
                    self@.data,
                    self@.feature_table_substitution_offset.0 as int,
                ) is None,
            }),
    {
        if (self.feature_table_substitution_offset.0 as usize) > self.data.len() {
            return None;
        }
        let sd = vstd::slice::slice_subrange(
            self.data,
            self.feature_table_substitution_offset.0 as usize,
            self.data.len(),
        );
        let mut s = Stream::new(sd);
        s.skip::<u16>();
        s.skip::<u16>();
        let count = match s.read::<u16>() {
            Some(v) => v,
            None => {
                return None;
            },
        };
        let records = match s.read_array16::<FeatureTableSubstitutionRecord>(count) {
            Some(a) => a,
            None => {
                return None;
            },
        };
        Some(FeatureSubstitutions { data: sd, records, index: 0 })
    }
}

/// A condition set: the set's buffer and its condition offsets.
struct ConditionSet<'a> {
    data: &'a [u8],
    offsets: LazyArray16<'a, Offset32>,
    index: u16,
}

impl<'a> View for ConditionSet<'a> {
    type V = ListView;

    closed spec fn view(&self) -> ListView {
        ListView { data: self.data@, records: self.offsets@, index: self.index as int }
    }
}

impl<'a> ConditionSet<'a> {
    /// Resolves the `n`-th condition; absent when it cannot be read or does
    /// not carry format `1`.
    fn condition_at(&self, n: u16) -> (r: Option<Condition>)
        ensures
            (match r {
                Some(c) => spec_condition_at(self@.data, self@.records, n as int) == Some(c),
                None => spec_condition_at(self@.data, self@.records, n as int) is None,
            }),
    {
        let offset = match self.offsets.get(n) {
            Some(o) => o,
            None => {
                return None;
            },
        };
        let condition = match Stream::read_at::<Condition>(self.data, offset.0 as usize) {
            Some(c) => c,
            None => {
                return None;
            },
        };
        if condition.format != 1 {
            return None;
        }
        Some(condition)
    }
}

/// A feature-table substitution record: a feature index and the raw offset
/// of the replacement feature table.
#[derive(Clone, Copy, PartialEq, Eq, Structural, Debug)]
pub struct FeatureTableSubstitutionRecord {
    pub index: FeatureIndex,
    pub table_offset: Offset32,
}

impl FromData for FeatureTableSubstitutionRecord {
    open spec fn spec_size() -> int {
        6
    }

    open spec fn spec_parse(data: Seq<u8>) -> FeatureTableSubstitutionRecord {
        FeatureTableSubstitutionRecord {
            index: FeatureIndex(be16(data, 0)),
            table_offset: Offset32(be32(data, 2)),
        }
    }

    proof fn size_facts() {
    }

    fn size() -> usize {
        6
    }

    fn parse(data: &[u8]) -> (r: Option<FeatureTableSubstitutionRecord>) {
        if data.len() == 6 {
            let index = match Stream::read_at::<u16>(data, 0) {
                Some(n) => FeatureIndex(n),
                None => {
                    return None;
                },
            };
            let table_offset = match Stream::read_at::<u32>(data, 2) {
                Some(n) => Offset32(n),
                None => {
                    return None;
                },
            };
            Some(FeatureTableSubstitutionRecord { index, table_offset })
        } else {
            None
        }
    }
}

/// The `n`-th substitution record stored in `recs`.
pub open spec fn substitution_record_at(recs: Seq<u8>, n: int) -> FeatureTableSubstitutionRecord {
    FeatureTableSubstitutionRecord::spec_parse(recs.subrange(n * 6, n * 6 + 6))
}

/// The mathematical content of one feature substitution: the declaring
/// list's buffer, the substituted feature's index, and the replacement
/// table's raw offset.
pub ghost struct SubstitutionView {
    pub data: Seq<u8>,
    pub index: FeatureIndex,
    pub table_offset: Offset32,
}

/// The substitution the `n`-th record of a substitution list carries.
pub open spec fn spec_substitution_at(v: ListView, n: int) -> Option<SubstitutionView> {
    if 0 <= n < count16(v.records, 6) {
        let rec = substitution_record_at(v.records, n);
        Some(SubstitutionView { data: v.data, index: rec.index, table_offset: rec.table_offset })
    } else {
        None
    }
}

/// The replacement feature a substitution resolves to; the replacement
/// carries the zero tag.
pub open spec fn spec_substituted_feature(v: SubstitutionView) -> Option<FeatureView> {
    if v.table_offset.0 as int <= v.data.len() {
        spec_feature_table(v.data.subrange(v.table_offset.0 as int, v.data.len() as int), Tag(0))
    } else {
        None
    }
}

/// An enumeration of a feature variation's substitutions.
pub struct FeatureSubstitutions<'a> {
    data: &'a [u8],
    records: LazyArray16<'a, FeatureTableSubstitutionRecord>,
    index: u16,
}

impl<'a> Clone for FeatureSubstitutions<'a> {
    fn clone(&self) -> (r: Self)
        ensures
            r == *self,
    {
        FeatureSubstitutions { data: self.data, records: self.records, index: self.index }
    }
}

impl<'a> Copy for FeatureSubstitutions<'a> {

}

impl<'a> View for FeatureSubstitutions<'a> {
    type V = ListView;

    closed spec fn view(&self) -> ListView {
        ListView { data: self.data@, records: self.records@, index: self.index as int }
    }
}

impl<'a> FeatureSubstitutions<'a> {
    /// The number of substitutions in the list.
    pub fn count(&self) -> (r: usize)
        ensures
            r as int == count16(self@.records, 6),
    {
        self.records.len() as usize
    }

    /// Reads the `n`-th substitution record without moving the enumeration.
    pub fn nth(&self, n: usize) -> (r: Option<FeatureSubstitution<'a>>)
        ensures
            (match r {
                Some(s) => spec_substitution_at(self@, n as int) == Some(s@),
                None => spec_substitution_at(self@, n as int) is None,
            }),
    {
        if n > 0xFFFF {
            return None;
        }
        let record = match self.records.get(n as u16) {
            Some(rec) => rec,
            None => {
                return None;
            },
        };
        Some(
            FeatureSubstitution {
                data: self.data,
                index: record.index,
                table_offset: record.table_offset,
            },
        )
    }

    /// Reads the substitution record at the current position and steps past
    /// it.
    pub fn next(&mut self) -> (r: Option<FeatureSubstitution<'a>>)
        ensures
            final(self)@.data == old(self)@.data,
            final(self)@.records == old(self)@.records,
            old(self)@.index < 0xFFFF ==> final(self)@.index == old(self)@.index + 1 && (match r {
                Some(s) => spec_substitution_at(old(self)@, old(self)@.index) == Some(s@),
                None => spec_substitution_at(old(self)@, old(self)@.index) is None,
            }),
            old(self)@.index == 0xFFFF ==> r is None && final(self)@.index == old(self)@.index,
    {
        if self.index < 0xFFFF {
            let idx = self.index;
            self.index = self.index + 1;
            self.nth(idx as usize)
        } else {
            None
        }
    }
}

/// One feature substitution: which feature index it replaces and where the
/// replacement feature table lies.
pub struct FeatureSubstitution<'a> {
    data: &'a [u8],
    index: FeatureIndex,
    table_offset: Offset32,
}

impl<'a> Clone for FeatureSubstitution<'a> {
    fn clone(&self) -> (r: Self)
        ensures
            r == *self,
    {
        FeatureSubstitution { data: self.data, index: self.index, table_offset: self.table_offset }
    }
}

impl<'a> Copy for FeatureSubstitution<'a> {

}

impl<'a> View for FeatureSubstitution<'a> {
    type V = SubstitutionView;

    closed spec fn view(&self) -> SubstitutionView {
        SubstitutionView { data: self.data@, index: self.index, table_offset: self.table_offset }
    }
}

impl<'a> FeatureSubstitution<'a> {
    /// The index of the feature this substitution replaces.
    pub fn index(&self) -> (r: FeatureIndex)
        ensures
            r == self@.index,
    {
        self.index
    }

    /// Resolves the replacement feature table; it re-enters the feature
    /// decoding path and carries the zero tag.
    pub fn feature(&self) -> (r: Option<Feature<'a>>)
        ensures
            (match r {
                Some(f) => spec_substituted_feature(self@) == Some(f@),
                None => spec_substituted_feature(self@) is None,
            }),
    {
        if (self.table_offset.0 as usize) > self.data.len() {
            return None;
        }
        let d = vstd::slice::slice_subrange(
            self.data,
            self.table_offset.0 as usize,
            self.data.len(),
        );
        let mut s = Stream::new(d);
        s.skip::<u16>();
        let count = match s.read::<u16>() {
            Some(v) => v,
            None => {
                return None;
            },
        };
        let lookup_indices = match s.read_array16::<LookupIndex>(count) {
            Some(a) => a,
            None => {
                return None;
            },
        };
        Some(Feature { tag: Tag(0), lookup_indices })
    }
}

/// The mathematical content of a parsed table: its four lists.
pub ghost struct TableView {
    pub scripts: ListView,
    pub features: ListView,
    pub lookups: ListView,
    pub variations: ListView,
}

/// Whether `d` starts with a recognized version tag: exactly 1.0 or 1.1.
pub open spec fn spec_table_version_ok(d: Seq<u8>) -> bool {
    4 <= d.len() && (be32(d, 0) == 0x0001_0000 || be32(d, 0) == 0x0001_0001)
}

/// The table header's width: three 16-bit list offsets after the version,
/// and one 32-bit variations offset more under version 1.1.
pub open spec fn spec_header_len(d: Seq<u8>) -> int {
    if be32(d, 0) == 0x0001_0001 {
        14
    } else {
        10
    }
}

/// The feature-variations list found at byte distance `off` in `d`: a
/// version pair, a 32-bit count, and that many 8-byte records.
pub open spec fn spec_var_list_at(d: Seq<u8>, off: int) -> Option<(Seq<u8>, Seq<u8>)> {
    if 0 <= off <= d.len() {
        let vd = d.subrange(off, d.len() as int);
        if 8 <= vd.len() {
            let count = be32(vd, 4) as int;
            if 8 + count * 8 <= vd.len() {
                Some((vd, vd.subrange(8, 8 + count * 8)))
            } else {
                None
            }
        } else {
            None
        }
    } else {
        None
    }
}

/// A collection with no buffer and no records.
pub open spec fn spec_empty_list() -> ListView {
    ListView { data: Seq::empty(), records: Seq::empty(), index: 0 }
}

/// The variations list a table declares: empty under version 1.0, and under
/// version 1.1 when the offset is the null sentinel or the list cannot be
/// read; the declared list otherwise. A missing variations list never
/// invalidates an otherwise valid table.
pub open spec fn spec_variations_list(d: Seq<u8>) -> ListView {
    if be32(d, 0) == 0x0001_0001 && be32(d, 10) != 0 {
        match spec_var_list_at(d, be32(d, 10) as int) {
            Some(p) => ListView { data: p.0, records: p.1, index: 0 },
            None => spec_empty_list(),
        }
    } else {
        spec_empty_list()
    }
}

/// The table found in `d`: a version-gated header, then the script, feature
/// and lookup lists, each mandatory, and an optional variations list.
pub open spec fn spec_parse_table(d: Seq<u8>) -> Option<TableView> {
    if spec_table_version_ok(d) && spec_header_len(d) <= d.len() {
        if spec_list_at(d, be16(d, 4) as int) is Some && spec_list_at(d, be16(d, 6) as int)
            is Some && spec_list_at(d, be16(d, 8) as int) is Some {
            let s = spec_list_at(d, be16(d, 4) as int).unwrap();
            let f = spec_list_at(d, be16(d, 6) as int).unwrap();
            let l = spec_list_at(d, be16(d, 8) as int).unwrap();
            Some(
                TableView {
                    scripts: ListView { data: s.0, records: s.1, index: 0 },
                    features: ListView { data: f.0, records: f.1, index: 0 },
                    lookups: ListView { data: l.0, records: l.1, index: 0 },
                    variations: spec_variations_list(d),
                },
            )
        } else {
            None
        }
    } else {
        None
    }
}

/// Decodes a record list at `off`: a 16-bit count, then that many records.
fn parse_rec_list<'a>(data: &'a [u8], off: Offset16) -> (r: Option<
    (&'a [u8], LazyArray16<'a, Record>),
>)
    ensures
        (match r {
            Some(p) => spec_list_at(data@, off.0 as int) == Some((p.0@, p.1@)),
            None => spec_list_at(data@, off.0 as int) is None,
        }),
{
    if (off.0 as usize) > data.len() {
        return None;
    }
    let ld = vstd::slice::slice_subrange(data, off.0 as usize, data.len());
    let mut s = Stream::new(ld);
    let count = match s.read::<u16>() {
        Some(v) => v,
        None => {
            return None;
        },
    };
    match s.read_array16::<Record>(count) {
        Some(a) => Some((ld, a)),
        None => None,
    }
}

/// A parsed GSUB or GPOS table: its script, feature, lookup and
/// feature-variation lists, each enumerated lazily.
pub struct GsubGposTable<'a> {
    /// The script list.
    pub script: Scripts<'a>,
    /// The feature list.
    pub features: Features<'a>,
    /// The lookup list.
    pub lookups: Lookups<'a>,
    /// The feature-variations list; empty when the table declares none.
    pub feature_variations: FeatureVariations<'a>,
}

impl<'a> Clone for GsubGposTable<'a> {
    fn clone(&self) -> (r: Self)
        ensures
            r == *self,
    {
        GsubGposTable {
            script: self.script,
            features: self.features,
            lookups: self.lookups,
            feature_variations: self.feature_variations,
        }
    }
}

impl<'a> Copy for GsubGposTable<'a> {

}

impl<'a> View for GsubGposTable<'a> {
    type V = TableView;

    open spec fn view(&self) -> TableView {
        TableView {
            scripts: self.script@,
            features: self.features@,
            lookups: self.lookups@,
            variations: self.feature_variations@,
        }
    }
}

impl<'a> GsubGposTable<'a> {
    /// Parses the table found in `data`.
    ///
    /// The version must be exactly 1.0 or 1.1 and the three mandatory lists
    /// must resolve, or the whole parse is absent. An unreadable or missing
    /// feature-variations list yields an empty variations collection, not a
    /// failure; version 1.0 never attempts it.
    pub fn parse(data: &'a [u8]) -> (r: Option<GsubGposTable<'a>>)
        ensures
            (r is Some) == (spec_parse_table(data@) is Some),
            (match r {
                Some(t) => spec_parse_table(data@) == Some(t@),
                None => true,
            }),
    {
        let mut s = Stream::new(data);
        let version = match s.read::<u32>() {
            Some(v) => v,
            None => {
                return None;
            },
        };
        if !(version == 0x00010000 || version == 0x00010001) {
            return None;
        }
        let script_list_offset = match s.read::<Offset16>() {
            Some(v) => v,
            None => {
                return None;
            },
        };
        let feature_list_offset = match s.read::<Offset16>() {
            Some(v) => v,
            None => {
                return None;
            },
        };
        let lookup_list_offset = match s.read::<Offset16>() {
            Some(v) => v,
            None => {
                return None;
            },
        };
        let mut feature_variations_offset: Option<Offset32> = None;
        if version == 0x00010001 {
            feature_variations_offset = match s.read::<Option<Offset32>>() {
                Some(v) => v,
                None => {
                    return None;
                },
            };
        }
        let (script_data, script_records) = match parse_rec_list(data, script_list_offset) {
            Some(p) => p,
            None => {
                return None;
            },
        };
        let (feature_data, feature_records) = match parse_rec_list(data, feature_list_offset) {
            Some(p) => p,
            None => {
                return None;
            },
        };
        let (lookup_data, lookup_records) = match parse_rec_list(data, lookup_list_offset) {
            Some(p) => p,
            None => {
                return None;
            },
        };
        let empty = vstd::slice::slice_subrange(data, 0, 0);
        proof {
            assert(empty@ =~= Seq::<u8>::empty());
        }
        let mut feature_variations = FeatureVariations {
            data: empty,
            records: LazyArray32::new(empty),
            index: 0,
        };
        if version == 0x00010001 {
            match feature_variations_offset {
                Some(off) => {
                    if (off.0 as usize) <= data.len() {
                        let vd = vstd::slice::slice_subrange(data, off.0 as usize, data.len());
                        let mut vs = Stream::new(vd);
                        vs.skip::<u16>();
                        vs.skip::<u16>();
                        match vs.read::<u32>() {
                            Some(count) => {
                                match vs.read_array32::<FeatureVariationRecord>(count) {
                                    Some(records) => {
                                        feature_variations = FeatureVariations {
                                            data: vd,
                                            records,
                                            index: 0,
                                        };
                                    },
                                    None => {},
                                }
                            },
                            None => {},
                        }
                    }
                },
                None => {},
            }
        }
        Some(
            GsubGposTable {
                script: Scripts { data: script_data, records: script_records, index: 0 },
                features: Features { data: feature_data, records: feature_records, index: 0 },
                lookups: Lookups { data: lookup_data, records: lookup_records, index: 0 },
                feature_variations,
            },
        )
    }

    /// The table's script enumeration, started at the first script.
    pub fn scripts(&self) -> (r: Scripts<'a>)
        ensures
            r@ == self.script@,
    {
        self.script
    }

    /// Resolves the script at `index`, the same element `scripts` yields at
    /// that position.
    pub fn script_at(&self, index: ScriptIndex) -> (r: Option<Script<'a>>)
        ensures
            (match r {
                Some(s) => spec_script_at(self@.scripts, index.0 as int) == Some(s@),
                None => spec_script_at(self@.scripts, index.0 as int) is None,
            }),
    {
        self.script.nth(index.0 as usize)
    }

    /// The table's feature enumeration, started at the first feature.
    pub fn features(&self) -> (r: Features<'a>)
        ensures
            r@ == self.features@,
    {
        self.features
    }

    /// Resolves the feature at `index`, the same element `features` yields
    /// at that position.
    pub fn feature_at(&self, index: FeatureIndex) -> (r: Option<Feature<'a>>)
        ensures
            (match r {
                Some(f) => spec_feature_at(self@.features, index.0 as int) == Some(f@),
                None => spec_feature_at(self@.features, index.0 as int) is None,
            }),
    {
        self.features.nth(index.0 as usize)
    }

    /// The table's lookup enumeration, started at the first lookup.
    pub fn lookups(&self) -> (r: Lookups<'a>)
        ensures
            r@ == self.lookups@,
    {
        self.lookups
    }

    /// Resolves the lookup at `index`, the same element `lookups` yields at
    /// that position.
    pub fn lookup_at(&self, index: LookupIndex) -> (r: Option<Lookup<'a>>)
        ensures
            (match r {
                Some(l) => spec_lookup_at(self@.lookups, index.0 as int) == Some(l@),
                None => spec_lookup_at(self@.lookups, index.0 as int) is None,
            }),
    {
        self.lookups.nth(index.0 as usize)
    }

    /// The table's feature-variation enumeration; empty when the table
    /// declares none.
    pub fn feature_variations(&self) -> (r: FeatureVariations<'a>)
        ensures
            r@ == self.feature_variations@,
    {
        self.feature_variations
    }

    /// Reads the feature-variation record at `index`, the same element
    /// `feature_variations` yields at that position.
    pub fn feature_variation_at(&self, index: FeatureVariationIndex) -> (r: Option<
        FeatureVariation<'a>,
    >)
        ensures
            (match r {
                Some(v) => spec_variation_at(self@.variations, index.0 as int) == Some(v@),
                None => spec_variation_at(self@.variations, index.0 as int) is None,
            }),
    {
        self.feature_variations.nth(index.0 as usize)
    }
}

impl<'a> Scripts<'a> {
    /// Finds a script by tag with a binary search over the script records,
    /// which the format keeps in ascending tag order.
    ///
    /// A hit carries the record's position, so it resolves to the same
    /// element `nth` yields there. On strictly sorted records a miss proves
    /// that no script record carries the tag and resolves.
    pub fn by_tag(&self, tag: Tag) -> (r: Option<(ScriptIndex, Script<'a>)>)
        ensures
            (match r {
                Some(p) => {
                    &&& (p.0.0 as int) < count16(self@.records, 6)
                    &&& record_at(self@.records, p.0.0 as int).tag == tag
                    &&& spec_script_at(self@, p.0.0 as int) == Some(p.1@)
                },
                None => true,
            }),
            tags_strictly_sorted(self@.records) && r is None ==> (forall|i: int|
                0 <= i < count16(self@.records, 6) ==> !(#[trigger] record_at(
                    self@.records,
                    i,
                ).tag == tag && spec_script_at(self@, i) is Some)),
    {
        proof {
            if tags_strictly_sorted(self@.records) {
                assert forall|i: int, j: int|
                    0 <= i <= j < self.records.spec_len() implies #[trigger] self.records.spec_get(
                    i,
                ).spec_key() <= #[trigger] self.records.spec_get(j).spec_key() by {
                    assert(self.records.spec_get(i) == record_at(self@.records, i));
                    assert(self.records.spec_get(j) == record_at(self@.records, j));
                    if i < j {
                        assert(record_at(self@.records, i).tag.0 < record_at(
                            self@.records,
                            j,
                        ).tag.0);
                    }
                }
            }
        }
        let found = self.records.binary_search_by(tag.0 as u64);
        let (idx, _) = match found {
            Some(p) => p,
            None => {
                proof {
                    if tags_strictly_sorted(self@.records) {
                        assert forall|i: int| 0 <= i < count16(self@.records, 6) implies !(
                        #[trigger] record_at(self@.records, i).tag == tag && spec_script_at(
                            self@,
                            i,
                        ) is Some) by {
                            if record_at(self@.records, i).tag == tag {
                                assert(self.records.spec_get(i) == record_at(self@.records, i));
                                assert(self.records.spec_get(i).spec_key() == tag.0 as u64);
                            }
                        }
                    }
                }
                return None;
            },
        };
        match self.nth(idx as usize) {
            Some(s) => Some((ScriptIndex(idx), s)),
            None => {
                proof {
                    if tags_strictly_sorted(self@.records) {
                        assert forall|i: int| 0 <= i < count16(self@.records, 6) implies !(
                        #[trigger] record_at(self@.records, i).tag == tag && spec_script_at(
                            self@,
                            i,
                        ) is Some) by {
                            if record_at(self@.records, i).tag == tag && i != idx as int {
                                assert(self.records.spec_get(i) == record_at(self@.records, i));
                                assert(self.records.spec_get(idx as int) == record_at(
                                    self@.records,
                                    idx as int,
                                ));
                                if i < idx as int {
                                    assert(record_at(self@.records, i).tag.0 < record_at(
                                        self@.records,
                                        idx as int,
                                    ).tag.0);
                                } else {
                                    assert(record_at(self@.records, idx as int).tag.0 < record_at(
                                        self@.records,
                                        i,
                                    ).tag.0);
                                }
                            }
                        }
                    }
                }
                None
            },
        }
    }
}

impl<'a> Lookups<'a> {
    /// Finds a lookup by its record's tag with a binary search, assuming the
    /// records are in ascending tag order.
    ///
    /// A hit carries the record's position, so it resolves to the same
    /// element `nth` yields there. On strictly sorted records a miss proves
    /// that no lookup record carries the tag and resolves.
    pub fn by_tag(&self, tag: Tag) -> (r: Option<(LookupIndex, Lookup<'a>)>)
        ensures
            (match r {
                Some(p) => {
                    &&& (p.0.0 as int) < count16(self@.records, 6)
                    &&& record_at(self@.records, p.0.0 as int).tag == tag
                    &&& spec_lookup_at(self@, p.0.0 as int) == Some(p.1@)
                },
                None => true,
            }),
            tags_strictly_sorted(self@.records) && r is None ==> (forall|i: int|
                0 <= i < count16(self@.records, 6) ==> !(#[trigger] record_at(
                    self@.records,
                    i,
                ).tag == tag && spec_lookup_at(self@, i) is Some)),
    {
        proof {
            if tags_strictly_sorted(self@.records) {
                assert forall|i: int, j: int|
                    0 <= i <= j < self.records.spec_len() implies #[trigger] self.records.spec_get(
                    i,
                ).spec_key() <= #[trigger] self.records.spec_get(j).spec_key() by {
                    assert(self.records.spec_get(i) == record_at(self@.records, i));
                    assert(self.records.spec_get(j) == record_at(self@.records, j));
                    if i < j {
                        assert(record_at(self@.records, i).tag.0 < record_at(
                            self@.records,
                            j,
                        ).tag.0);
                    }
                }
            }
        }
        let found = self.records.binary_search_by(tag.0 as u64);
        let (idx, _) = match found {
            Some(p) => p,
            None => {
                proof {
                    if tags_strictly_sorted(self@.records) {
                        assert forall|i: int| 0 <= i < count16(self@.records, 6) implies !(
                        #[trigger] record_at(self@.records, i).tag == tag && spec_lookup_at(
                            self@,
                            i,
                        ) is Some) by {
                            if record_at(self@.records, i).tag == tag {
                                assert(self.records.spec_get(i) == record_at(self@.records, i));
                                assert(self.records.spec_get(i).spec_key() == tag.0 as u64);
                            }
                        }
                    }
                }
                return None;
            },
        };
        match self.nth(idx as usize) {
            Some(l) => Some((LookupIndex(idx), l)),
            None => {
                proof {
                    if tags_strictly_sorted(self@.records) {
                        assert forall|i: int| 0 <= i < count16(self@.records, 6) implies !(
                        #[trigger] record_at(self@.records, i).tag == tag && spec_lookup_at(
                            self@,
                            i,
                        ) is Some) by {
                            if record_at(self@.records, i).tag == tag && i != idx as int {
                                assert(self.records.spec_get(i) == record_at(self@.records, i));
                                assert(self.records.spec_get(idx as int) == record_at(
                                    self@.records,
                                    idx as int,
                                ));
                                if i < idx as int {
                                    assert(record_at(self@.records, i).tag.0 < record_at(
                                        self@.records,
                                        idx as int,
                                    ).tag.0);
                                } else {
                                    assert(record_at(self@.records, idx as int).tag.0 < record_at(
                                        self@.records,
                                        i,
                                    ).tag.0);
                                }
                            }
                        }
                    }
                }
                None
            },
        }
    }
}

/// A run of glyph ids with an attached 16-bit value: a class for
/// class-definition tables, a coverage index for coverage tables.
#[derive(Clone, Copy, PartialEq, Eq, Structural, Debug)]
pub struct RangeRecord {
    pub start_glyph_id: GlyphId,
    pub end_glyph_id: GlyphId,
    pub value: u16,
}

impl FromData for RangeRecord {
    open spec fn spec_size() -> int {
        6
    }

    open spec fn spec_parse(data: Seq<u8>) -> RangeRecord {
        RangeRecord {
            start_glyph_id: GlyphId(be16(data, 0)),
            end_glyph_id: GlyphId(be16(data, 2)),
            value: be16(data, 4),
        }
    }

    proof fn size_facts() {
    }

    fn size() -> usize {
        6
    }

    fn parse(data: &[u8]) -> (r: Option<RangeRecord>) {
        if data.len() == 6 {
            let start = match Stream::read_at::<u16>(data, 0) {
                Some(n) => GlyphId(n),
                None => {
                    return None;
                },
            };
            let end = match Stream::read_at::<u16>(data, 2) {
                Some(n) => GlyphId(n),
                None => {
                    return None;
                },
            };
            let value = match Stream::read_at::<u16>(data, 4) {
                Some(n) => n,
                None => {
                    return None;
                },
            };
            Some(RangeRecord { start_glyph_id: start, end_glyph_id: end, value })
        } else {
            None
        }
    }
}

impl RangeRecord {
    /// Whether the run covers `g`; both ends are inclusive.
    pub fn contains(&self, g: GlyphId) -> (r: bool)
        ensures
            r == (self.start_glyph_id.0 <= g.0 && g.0 <= self.end_glyph_id.0),
    {
        self.start_glyph_id.0 <= g.0 && g.0 <= self.end_glyph_id.0
    }
}

/// The glyph id stored at position `i` of a first-format coverage array.
pub open spec fn coverage_glyph_at(d: Seq<u8>, i: int) -> GlyphId {
    GlyphId::spec_parse(d.subrange(4 + i * 2, 4 + i * 2 + 2))
}

/// The range record stored at position `i` of a table whose range array
/// starts at byte 4: a second-format coverage or class-definition table.
pub open spec fn range_entry(d: Seq<u8>, i: int) -> RangeRecord {
    RangeRecord::spec_parse(d.subrange(4 + i * 6, 4 + i * 6 + 6))
}

/// Whether a coverage table covers `g`: membership in the first format's
/// glyph array, or containment in one of the second format's inclusive
/// ranges. A truncated table or an unrecognized format covers nothing.
pub open spec fn spec_coverage_contains(d: Seq<u8>, g: GlyphId) -> bool {
    if 4 <= d.len() {
        let format = be16(d, 0);
        let count = be16(d, 2) as int;
        if format == 1 {
            4 + count * 2 <= d.len() && (exists|i: int|
                0 <= i < count && #[trigger] coverage_glyph_at(d, i) == g)
        } else if format == 2 {
            4 + count * 6 <= d.len() && (exists|i: int|
                0 <= i < count && (#[trigger] range_entry(d, i)).start_glyph_id.0 <= g.0 && g.0
                    <= range_entry(d, i).end_glyph_id.0)
        } else {
            false
        }
    } else {
        false
    }
}

/// Whether a first-format coverage table's glyph array is in ascending
/// order, as the format demands. Any other table is unconstrained. Assumed,
/// never re-validated: the membership contract is conditional on it.
pub open spec fn spec_coverage_sorted(d: Seq<u8>) -> bool {
    (4 <= d.len() && be16(d, 0) == 1 && 4 + (be16(d, 2) as int) * 2 <= d.len()) ==> (forall|
        i: int,
        j: int,
    |
        0 <= i <= j < be16(d, 2) as int ==> (#[trigger] coverage_glyph_at(d, i)).0 <= (
        #[trigger] coverage_glyph_at(d, j)).0)
}

/// A glyph inside a declared second-format range is covered, at the
/// boundaries included.
pub proof fn lemma_coverage_range_boundaries(d: Seq<u8>, g: GlyphId, i: int)
    requires
        4 <= d.len(),
        be16(d, 0) == 2,
        4 + (be16(d, 2) as int) * 6 <= d.len(),
        0 <= i < be16(d, 2) as int,
        range_entry(d, i).start_glyph_id.0 <= g.0,
        g.0 <= range_entry(d, i).end_glyph_id.0,
    ensures
        spec_coverage_contains(d, g),
{
}

/// A coverage table over the raw bytes of a coverage subtable.
pub struct CoverageTable<'a> {
    data: &'a [u8],
}

impl<'a> Clone for CoverageTable<'a> {
    fn clone(&self) -> (r: Self)
        ensures
            r == *self,
    {
        CoverageTable { data: self.data }
    }
}

impl<'a> Copy for CoverageTable<'a> {

}

impl<'a> View for CoverageTable<'a> {
    type V = Seq<u8>;

    closed spec fn view(&self) -> Seq<u8> {
        self.data@
    }
}

impl<'a> CoverageTable<'a> {
    /// Wraps raw coverage-table bytes.
    pub fn new(data: &'a [u8]) -> (r: Self)
        ensures
            r@ == data@,
    {
        CoverageTable { data }
    }

    /// Whether the table covers `glyph_id`.
    ///
    /// A hit is always real coverage. The first format is searched by
    /// bisection, so the exact answer is owed only when its glyph array is
    /// sorted as the format demands; the second format's range scan, and
    /// every miss on an unreadable table, are exact unconditionally.
    pub fn contains(&self, glyph_id: GlyphId) -> (r: bool)
        ensures
            r ==> spec_coverage_contains(self@, glyph_id),
            spec_coverage_sorted(self@) ==> r == spec_coverage_contains(self@, glyph_id),
    {
        let mut s = Stream::new(self.data);
        let format = match s.read::<u16>() {
            Some(v) => v,
            None => {
                return false;
            },
        };
        let count = match s.read::<u16>() {
            Some(v) => v,
            None => {
                return false;
            },
        };
        if format == 1 {
            let records = match s.read_array16::<GlyphId>(count) {
                Some(a) => a,
                None => {
                    return false;
                },
            };
            proof {
                assert forall|i: int| 0 <= i < count as int implies records.spec_get(i)
                    == coverage_glyph_at(self@, i) by {
                    assert(records@.subrange(i * 2, i * 2 + 2) =~= self@.subrange(
                        4 + i * 2,
                        4 + i * 2 + 2,
                    ));
                }
                if spec_coverage_sorted(self@) {
                    assert forall|i: int, j: int|
                        0 <= i <= j < records.spec_len() implies #[trigger] records.spec_get(
                        i,
                    ).spec_key() <= #[trigger] records.spec_get(j).spec_key() by {
                        assert(records.spec_get(i) == coverage_glyph_at(self@, i));
                        assert(records.spec_get(j) == coverage_glyph_at(self@, j));
                        assert(coverage_glyph_at(self@, i).0 <= coverage_glyph_at(self@, j).0);
                    }
                }
            }
            match records.binary_search(&glyph_id) {
                Some(p) => {
                    proof {
                        assert(coverage_glyph_at(self@, p.0 as int) == glyph_id);
                    }
                    true
                },
                None => {
                    proof {
                        if spec_coverage_sorted(self@) {
                            assert forall|i: int|
                                0 <= i < count as int implies !(#[trigger] coverage_glyph_at(
                                self@,
                                i,
                            ) == glyph_id) by {
                                if coverage_glyph_at(self@, i) == glyph_id {
                                    assert(records.spec_get(i).spec_key()
                                        == glyph_id.spec_key());
                                }
                            }
                        }
                    }
                    false
                },
            }
        } else if format == 2 {
            let records = match s.read_array16::<RangeRecord>(count) {
                Some(a) => a,
                None => {
                    return false;
                },
            };
            proof {
                assert forall|i: int| 0 <= i < count as int implies records.spec_get(i)
                    == range_entry(self@, i) by {
                    assert(records@.subrange(i * 6, i * 6 + 6) =~= self@.subrange(
                        4 + i * 6,
                        4 + i * 6 + 6,
                    ));
                }
            }
            let mut i: u16 = 0;
            while i < count
                invariant
                    count as int == be16(self@, 2) as int,
                    records.spec_len() == count as int,
                    i <= count,
                    4 <= self@.len(),
                    be16(self@, 0) == 2,
                    4 + (count as int) * 6 <= self@.len(),
                    forall|i2: int|
                        0 <= i2 < count as int ==> records.spec_get(i2) == range_entry(self@, i2),
                    forall|j: int|
                        0 <= j < i as int ==> !((#[trigger] range_entry(
                            self@,
                            j,
                        )).start_glyph_id.0 <= glyph_id.0 && glyph_id.0 <= range_entry(
                            self@,
                            j,
                        ).end_glyph_id.0),
                decreases count as int - i as int,
            {
                let rec = records.get(i).unwrap();
                if rec.contains(glyph_id) {
                    return true;
                }
                i = i + 1;
            }
            false
        } else {
            false
        }
    }
}

/// The class a glyph belongs to in a class-definition table.
#[derive(Clone, Copy, PartialEq, Eq, Structural, Debug)]
pub struct Class(pub u16);

impl FromData for Class {
    open spec fn spec_size() -> int {
        2
    }

    open spec fn spec_parse(data: Seq<u8>) -> Class {
        Class(be16(data, 0))
    }

    proof fn size_facts() {
    }

    fn size() -> usize {
        2
    }

    fn parse(data: &[u8]) -> (r: Option<Class>) {
        match u16::parse(data) {
            Some(n) => Some(Class(n)),
            None => None,
        }
    }
}

/// The class of the first range at or after position `i` that covers `g`,
/// scanning the ranges in declaration order.
pub open spec fn spec_class_ranges(d: Seq<u8>, g: GlyphId, count: int, i: int) -> Option<Class>
    decreases count - i,
{
    if i < 0 || i >= count {
        None
    } else {
        let rr = range_entry(d, i);
        if rr.start_glyph_id.0 <= g.0 && g.0 <= rr.end_glyph_id.0 {
            Some(Class(rr.value))
        } else {
            spec_class_ranges(d, g, count, i + 1)
        }
    }
}

/// The class a readable entry assigns to `g`: the first format indexes a
/// contiguous run of classes from a base glyph, the second scans ranges;
/// absent when no entry covers `g` or the table cannot be read.
pub open spec fn spec_class_lookup(d: Seq<u8>, g: GlyphId) -> Option<Class> {
    if 2 <= d.len() {
        let format = be16(d, 0);
        if format == 1 {
            if 4 <= d.len() {
                let start = be16(d, 2);
                if g.0 < start {
                    None
                } else if 6 <= d.len() {
                    let count = be16(d, 4) as int;
                    if 6 + count * 2 <= d.len() {
                        if (g.0 as int - start as int) < count {
                            Some(Class(be16(d, 6 + (g.0 as int - start as int) * 2)))
                        } else {
                            None
                        }
                    } else {
                        None
                    }
                } else {
                    None
                }
            } else {
                None
            }
        } else if format == 2 {
            if 4 <= d.len() {
                let count = be16(d, 2) as int;
                if 4 + count * 6 <= d.len() {
                    spec_class_ranges(d, g, count, 0)
                } else {
                    None
                }
            } else {
                None
            }
        } else {
            None
        }
    } else {
        None
    }
}

/// The class a class-definition table assigns to `g`: the looked-up class,
/// or class `0` when no entry covers the glyph. Total by construction:
/// absence of a match is itself the well-defined default.
pub open spec fn spec_class_get(d: Seq<u8>, g: GlyphId) -> Class {
    match spec_class_lookup(d, g) {
        Some(c) => c,
        None => Class(0),
    }
}

/// When no range at or after position `i` covers `g`, the scan yields no
/// class.
pub proof fn lemma_unmatched_ranges_no_class(d: Seq<u8>, g: GlyphId, count: int, i: int)
    requires
        forall|j: int|
            i <= j < count ==> !((#[trigger] range_entry(d, j)).start_glyph_id.0 <= g.0 && g.0
                <= range_entry(d, j).end_glyph_id.0),
    ensures
        spec_class_ranges(d, g, count, i) is None,
    decreases count - i,
{
    if 0 <= i < count {
        lemma_unmatched_ranges_no_class(d, g, count, i + 1);
    }
}

/// A glyph no entry covers belongs to class `0`: absence of a match is the
/// documented terminal default, never a propagated failure.
pub proof fn lemma_uncovered_class_is_zero(d: Seq<u8>, g: GlyphId)
    requires
        spec_class_lookup(d, g) is None,
    ensures
        spec_class_get(d, g) == Class(0),
{
}

/// A class-definition table over the raw bytes of a class-definition
/// subtable.
pub struct ClassDefinitionTable<'a> {
    data: &'a [u8],
}

impl<'a> Clone for ClassDefinitionTable<'a> {
    fn clone(&self) -> (r: Self)
        ensures
            r == *self,
    {
        ClassDefinitionTable { data: self.data }
    }
}

impl<'a> Copy for ClassDefinitionTable<'a> {

}

impl<'a> View for ClassDefinitionTable<'a> {
    type V = Seq<u8>;

    closed spec fn view(&self) -> Seq<u8> {
        self.data@
    }
}

impl<'a> ClassDefinitionTable<'a> {
    /// Wraps raw class-definition-table bytes.
    pub fn new(data: &'a [u8]) -> (r: Self)
        ensures
            r@ == data@,
    {
        ClassDefinitionTable { data }
    }

    /// The class of `glyph_id`; never absent: any glyph outside the covered
    /// ranges belongs to class `0`.
    pub fn get(&self, glyph_id: GlyphId) -> (r: Class)
        ensures
            r == spec_class_get(self@, glyph_id),
    {
        match self.get_impl(glyph_id) {
            Some(c) => c,
            None => Class(0),
        }
    }

    /// The class a readable entry assigns to `glyph_id`, absent when none
    /// does.
    fn get_impl(&self, glyph_id: GlyphId) -> (r: Option<Class>)
        ensures
            (match r {
                Some(c) => spec_class_lookup(self@, glyph_id) == Some(c),
                None => spec_class_lookup(self@, glyph_id) is None,
            }),
    {
        let mut s = Stream::new(self.data);
        let format = match s.read::<u16>() {
            Some(v) => v,
            None => {
                return None;
            },
        };
        if format == 1 {
            let start = match s.read::<u16>() {
                Some(v) => v,
                None => {
                    return None;
                },
            };
            if glyph_id.0 < start {
                return None;
            }
            let count = match s.read::<u16>() {
                Some(v) => v,
                None => {
                    return None;
                },
            };
            let classes = match s.read_array16::<Class>(count) {
                Some(a) => a,
                None => {
                    return None;
                },
            };
            let idx = glyph_id.0 - start;
            let r = classes.get(idx);
            proof {
                if (idx as int) < count as int {
                    assert(classes@.subrange(idx as int * 2, idx as int * 2 + 2) =~= self@.subrange(
                        6 + (idx as int) * 2,
                        6 + (idx as int) * 2 + 2,
                    ));
                }
            }
            r
        } else if format == 2 {
            let count = match s.read::<u16>() {
                Some(v) => v,
                None => {
                    return None;
                },
            };
            let records = match s.read_array16::<RangeRecord>(count) {
                Some(a) => a,
                None => {
                    return None;
                },
            };
            proof {
                assert forall|i: int| 0 <= i < count as int implies records.spec_get(i)
                    == range_entry(self@, i) by {
                    assert(records@.subrange(i * 6, i * 6 + 6) =~= self@.subrange(
                        4 + i * 6,
                        4 + i * 6 + 6,
                    ));
                }
            }
            let mut i: u16 = 0;
            while i < count
                invariant
                    count as int == be16(self@, 2) as int,
                    records.spec_len() == count as int,
                    i <= count,
                    4 <= self@.len(),
                    be16(self@, 0) == 2,
                    4 + (count as int) * 6 <= self@.len(),
                    forall|i2: int|
                        0 <= i2 < count as int ==> records.spec_get(i2) == range_entry(self@, i2),
                    spec_class_ranges(self@, glyph_id, count as int, 0) == spec_class_ranges(
                        self@,
                        glyph_id,
                        count as int,
                        i as int,
                    ),
                decreases count as int - i as int,
            {
                let rec = records.get(i).unwrap();
                if rec.contains(glyph_id) {
                    return Some(Class(rec.value));
                }
                i = i + 1;
            }
            None
        } else {
            None
        }
    }
}

/// A feature variation whose condition set resolves and holds no conditions
/// applies to every coordinate vector.
pub proof fn lemma_empty_condition_set_applies(v: VariationView, coords: Seq<NormalizedCoord>)
    requires
        spec_condition_set(v.data, v.condition_set_offset.0 as int) is Some,
        count16(spec_condition_set(v.data, v.condition_set_offset.0 as int).unwrap().1, 4) == 0,
    ensures
        spec_evaluate(v, coords),
{
}

} // verus!
