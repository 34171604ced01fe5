//! Pragma and meta-attribute lines: the document header.

use std::ops::Range;

use vstd::prelude::*;

use crate::gff::parsers::{Field, seq_id_chars, valid_seq_id};
use crate::gff::{GffError, UnescapedString, unescape};
use crate::text::{
    chars_eq, chars_of, decimal_value, lemma_split_once_at, decimal_within, find_char, parse_decimal, split_chars,
    split_on, split_once, sub_vec, views,
};

verus! {

/// The header of a document, gathered from its pragma lines.
#[derive(Debug, Clone)]
pub struct Metadata {
    /// The minor and patch numbers of version 3 of the format.
    pub version: Option<(u8, u8)>,
    /// The declared extent of each sequence, in order of declaration.
    pub sequence_regions: Option<Vec<(UnescapedString, Range<u64>)>>,
    pub feature_ontology_uri: Option<UnescapedString>,
    pub attribute_ontology_uri: Option<UnescapedString>,
    pub source_ontology_uri: Option<UnescapedString>,
    pub species_uri: Option<UnescapedString>,
    /// The source and the name of a genome build.
    pub genome_build: Option<(UnescapedString, UnescapedString)>,
    /// Application meta-attributes, in order of appearance.
    pub other_meta: Option<Vec<(UnescapedString, UnescapedString)>>,
}

pub struct MetaView {
    pub version: Option<(u8, u8)>,
    pub sequence_regions: Option<Seq<(Seq<char>, (u64, u64))>>,
    pub feature_ontology_uri: Option<Seq<char>>,
    pub attribute_ontology_uri: Option<Seq<char>>,
    pub source_ontology_uri: Option<Seq<char>>,
    pub species_uri: Option<Seq<char>>,
    pub genome_build: Option<(Seq<char>, Seq<char>)>,
    pub other_meta: Option<Seq<(Seq<char>, Seq<char>)>>,
}

pub open spec fn opt_string(o: Option<UnescapedString>) -> Option<Seq<char>> {
    match o {
        Some(s) => Some(s@),
        None => None,
    }
}

pub open spec fn region_views(v: Seq<(UnescapedString, Range<u64>)>) -> Seq<(Seq<char>, (u64, u64))> {
    v.map_values(|p: (UnescapedString, Range<u64>)| (p.0@, (p.1.start, p.1.end)))
}

pub open spec fn pair_views(v: Seq<(UnescapedString, UnescapedString)>) -> Seq<(Seq<char>, Seq<char>)> {
    v.map_values(|p: (UnescapedString, UnescapedString)| (p.0@, p.1@))
}

impl View for Metadata {
    type V = MetaView;

    open spec fn view(&self) -> MetaView {
        MetaView {
            version: self.version,
            sequence_regions: match self.sequence_regions {
                Some(v) => Some(region_views(v@)),
                None => None,
            },
            feature_ontology_uri: opt_string(self.feature_ontology_uri),
            attribute_ontology_uri: opt_string(self.attribute_ontology_uri),
            source_ontology_uri: opt_string(self.source_ontology_uri),
            species_uri: opt_string(self.species_uri),
            genome_build: match self.genome_build {
                Some(p) => Some((p.0@, p.1@)),
                None => None,
            },
            other_meta: match self.other_meta {
                Some(v) => Some(pair_views(v@)),
                None => None,
            },
        }
    }
}

pub open spec fn empty_meta() -> MetaView {
    MetaView {
        version: None,
        sequence_regions: None,
        feature_ontology_uri: None,
        attribute_ontology_uri: None,
        source_ontology_uri: None,
        species_uri: None,
        genome_build: None,
        other_meta: None,
    }
}

/// The keys of a list of pairs.
pub open spec fn region_keys(s: Seq<(Seq<char>, (u64, u64))>) -> Seq<Seq<char>> {
    s.map_values(|p: (Seq<char>, (u64, u64))| p.0)
}

/// The keys of a list of pairs.
pub open spec fn meta_keys(s: Seq<(Seq<char>, Seq<char>)>) -> Seq<Seq<char>> {
    s.map_values(|p: (Seq<char>, Seq<char>)| p.0)
}

/// The keys of the recorded sequence regions.
pub open spec fn regions_of(m: MetaView) -> Seq<Seq<char>> {
    match m.sequence_regions {
        Some(s) => region_keys(s),
        None => Seq::empty(),
    }
}

/// The keys of the recorded meta-attributes.
pub open spec fn meta_keys_of(m: MetaView) -> Seq<Seq<char>> {
    match m.other_meta {
        Some(s) => meta_keys(s),
        None => Seq::empty(),
    }
}

/// `o` with one more pair at its end.
pub open spec fn push_pair<X>(o: Option<Seq<(Seq<char>, X)>>, p: (Seq<char>, X)) -> Option<
    Seq<(Seq<char>, X)>,
> {
    match o {
        Some(s) => Some(s.push(p)),
        None => Some(seq![p]),
    }
}

/// No key appears twice.
pub open spec fn distinct(ks: Seq<Seq<char>>) -> bool {
    forall|i: int, j: int| 0 <= i < j < ks.len() ==> ks[i] != ks[j]
}

/// The header invariant: sequence regions and meta-attributes are keyed
/// uniquely.
pub open spec fn meta_wf(m: MetaView) -> bool {
    distinct(regions_of(m)) && distinct(meta_keys_of(m))
}

/// Two numbers below 256 separated by `.`.
pub open spec fn dotted_pair(s: Seq<char>) -> Option<(u8, u8)> {
    match split_once(s, '.') {
        Some((a, b)) => if decimal_within(a, 255) && decimal_within(b, 255) {
            Some((decimal_value(a) as u8, decimal_value(b) as u8))
        } else {
            None
        },
        None => None,
    }
}

/// A `gff-version` value: `3`, which records no minor version, or
/// `3.<minor>.<patch>`.
pub open spec fn version_value(s: Seq<char>) -> Result<Option<(u8, u8)>, GffError> {
    if s == seq!['3'] {
        Ok(None)
    } else if s.len() >= 2 && s[0] == '3' && s[1] == '.' {
        match dotted_pair(s.subrange(2, s.len() as int)) {
            Some(v) => Ok(Some(v)),
            None => Err(GffError::InvalidVersion),
        }
    } else {
        Err(GffError::InvalidVersion)
    }
}

/// A `sequence-region` value: a sequence id, a start and an end, separated
/// by single spaces.
pub open spec fn region_value(s: Seq<char>) -> Result<(Seq<char>, u64, u64), GffError> {
    let p = split_on(s, ' ');
    if p.len() == 3 && valid_seq_id(p[0]) && decimal_within(p[1], u64::MAX as nat)
        && decimal_within(p[2], u64::MAX as nat) {
        Ok((p[0], decimal_value(p[1]) as u64, decimal_value(p[2]) as u64))
    } else {
        Err(GffError::ParseError(Field::SequenceRegion))
    }
}

/// The header `m` after a `##` pragma line whose text after `##` is `line`.
pub open spec fn pragma(m: MetaView, line: Seq<char>) -> Result<MetaView, GffError> {
    match split_once(line, ' ') {
        None => Err(GffError::MalformedLine),
        Some((kind, rem)) => if kind == "gff-version"@ {
            match version_value(rem) {
                Ok(v) => Ok(MetaView { version: v, ..m }),
                Err(e) => Err(e),
            }
        } else if kind == "sequence-region"@ {
            match region_value(rem) {
                Err(e) => Err(e),
                Ok((id, a, b)) => match unescape(id) {
                    Err(e) => Err(e),
                    Ok(k) => if regions_of(m).contains(k) {
                        Err(GffError::DuplicateSequence)
                    } else {
                        Ok(
                            MetaView {
                                sequence_regions: push_pair(m.sequence_regions, (k, (a, b))),
                                ..m
                            },
                        )
                    },
                },
            }
        } else if kind == "feature-ontology"@ {
            match unescape(rem) {
                Ok(v) => Ok(MetaView { feature_ontology_uri: Some(v), ..m }),
                Err(e) => Err(e),
            }
        } else if kind == "attribute-ontology"@ {
            match unescape(rem) {
                Ok(v) => Ok(MetaView { attribute_ontology_uri: Some(v), ..m }),
                Err(e) => Err(e),
            }
        } else if kind == "source-ontology"@ {
            match unescape(rem) {
                Ok(v) => Ok(MetaView { source_ontology_uri: Some(v), ..m }),
                Err(e) => Err(e),
            }
        } else if kind == "species"@ {
            match unescape(rem) {
                Ok(v) => Ok(MetaView { species_uri: Some(v), ..m }),
                Err(e) => Err(e),
            }
        } else if kind == "genome-build"@ {
            match split_once(rem, ' ') {
                None => Err(GffError::InvalidGenomeBuild),
                Some((l, r)) => match unescape(l) {
                    Err(e) => Err(e),
                    Ok(lv) => match unescape(r) {
                        Err(e) => Err(e),
                        Ok(rv) => Ok(MetaView { genome_build: Some((lv, rv)), ..m }),
                    },
                },
            }
        } else {
            Err(GffError::InvalidAttribute)
        },
    }
}

/// The header `m` after a `#!` meta-attribute line whose text after `#!` is
/// `line`: `spec-version` sets the version, any other key is recorded once.
pub open spec fn domain_meta(m: MetaView, line: Seq<char>) -> Result<MetaView, GffError> {
    match split_once(line, ' ') {
        None => Err(GffError::MalformedLine),
        Some((key, val)) => if key == "spec-version"@ {
            match dotted_pair(val) {
                Some(v) => Ok(MetaView { version: Some(v), ..m }),
                None => Err(GffError::InvalidVersion),
            }
        } else {
            match unescape(key) {
                Err(e) => Err(e),
                Ok(k) => if meta_keys_of(m).contains(k) {
                    Err(GffError::DuplicateMetaAttribute)
                } else {
                    match unescape(val) {
                        Err(e) => Err(e),
                        Ok(v) => Ok(MetaView { other_meta: push_pair(m.other_meta, (k, v)), ..m }),
                    }
                },
            }
        },
    }
}

/// The header after a `##` line (`domain` false) or a `#!` line (`domain`
/// true).
pub open spec fn meta_line(m: MetaView, domain: bool, line: Seq<char>) -> Result<MetaView, GffError> {
    if domain {
        domain_meta(m, line)
    } else {
        pragma(m, line)
    }
}

/// Adding a key that is absent keeps keys distinct.
pub proof fn lemma_push_distinct(ks: Seq<Seq<char>>, k: Seq<char>)
    requires
        distinct(ks),
        !ks.contains(k),
    ensures
        distinct(ks.push(k)),
{
    let t = ks.push(k);
    assert forall|i: int, j: int| 0 <= i < j < t.len() implies t[i] != t[j] by {
        if j == ks.len() {
            assert(t[i] == ks[i]);
        } else {
            assert(t[i] == ks[i] && t[j] == ks[j]);
        }
    }
}

/// Every header line keeps the header invariant.
pub proof fn meta_line_keeps_wf(m: MetaView, domain: bool, line: Seq<char>)
    requires
        meta_wf(m),
        meta_line(m, domain, line) is Ok,
    ensures
        meta_wf(meta_line(m, domain, line)->Ok_0),
{
    if domain {
        match split_once(line, ' ') {
            Some((key, val)) => if key != "spec-version"@ {
                let k = unescape(key)->Ok_0;
                let v = unescape(val)->Ok_0;
                lemma_push_distinct(meta_keys_of(m), k);
                let n = domain_meta(m, line)->Ok_0;
                assert(meta_keys_of(n) =~= meta_keys_of(m).push(k));
            },
            None => {},
        }
    } else {
        match split_once(line, ' ') {
            Some((kind, rem)) => if kind == "sequence-region"@ {
                reveal_strlit("gff-version");
                reveal_strlit("sequence-region");
                let r = region_value(rem)->Ok_0;
                let k = unescape(r.0)->Ok_0;
                lemma_push_distinct(regions_of(m), k);
                let n = pragma(m, line)->Ok_0;
                assert(regions_of(n) =~= regions_of(m).push(k));
            },
            None => {},
        }
    }
}

/// A sequence region that is declared twice is refused the second time,
/// whatever the two ranges.
pub proof fn duplicate_region_rejected(m: MetaView, rem1: Seq<char>, rem2: Seq<char>)
    requires
        pragma(m, "sequence-region"@ + seq![' '] + rem1) is Ok,
        region_value(rem1) is Ok,
        region_value(rem2) is Ok,
        region_value(rem1)->Ok_0.0 == region_value(rem2)->Ok_0.0,
    ensures
        pragma(
            pragma(m, "sequence-region"@ + seq![' '] + rem1)->Ok_0,
            "sequence-region"@ + seq![' '] + rem2,
        ) == Err::<MetaView, GffError>(GffError::DuplicateSequence),
{
    reveal_strlit("sequence-region");
    reveal_strlit("gff-version");
    let kw = "sequence-region"@;
    lemma_split_once_at(kw, ' ', rem1);
    lemma_split_once_at(kw, ' ', rem2);
    let k = unescape(region_value(rem1)->Ok_0.0)->Ok_0;
    let r = region_value(rem1)->Ok_0;
    let m1 = pragma(m, kw + seq![' '] + rem1)->Ok_0;
    assert(m1.sequence_regions == push_pair(m.sequence_regions, (k, (r.1, r.2))));
    let ks = regions_of(m1);
    assert(ks.len() > 0 && ks[ks.len() - 1] == k);
}

/// A `gff-version` pragma whose value does not start with `3` is refused.
pub proof fn version_gate(m: MetaView, v: Seq<char>)
    requires
        v.len() == 0 || v[0] != '3',
    ensures
        pragma(m, "gff-version"@ + seq![' '] + v) == Err::<MetaView, GffError>(GffError::InvalidVersion),
{
    reveal_strlit("gff-version");
    lemma_split_once_at("gff-version"@, ' ', v);
    assert(v != seq!['3']) by {
        if v == seq!['3'] {
            assert(v[0] == '3');
        }
    }
}

fn str_eq(a: &str, b: &str) -> (r: bool)
    ensures
        r == (a@ == b@),
{
    let x = chars_of(a);
    let y = chars_of(b);
    chars_eq(x.as_slice(), y.as_slice())
}

fn is_word(t: &[char], lit: &str) -> (r: bool)
    ensures
        r == (t@ == lit@),
{
    let l = chars_of(lit);
    chars_eq(t, l.as_slice())
}

fn find_region(v: &Vec<(UnescapedString, Range<u64>)>, k: &UnescapedString) -> (r: bool)
    ensures
        r == region_keys(region_views(v@)).contains(k@),
{
    let ghost rv = region_views(v@);
    let mut i: usize = 0;
    while i < v.len()
        invariant
            rv == region_views(v@),
            i <= v@.len(),
            forall|j: int| 0 <= j < i ==> (#[trigger] region_keys(rv)[j]) != k@,
        decreases v@.len() - i,
    {
        if str_eq(v[i].0.as_str(), k.as_str()) {
            assert(region_keys(rv)[i as int] == k@);
            return true;
        }
        i += 1;
    }
    false
}

fn find_meta(v: &Vec<(UnescapedString, UnescapedString)>, k: &UnescapedString) -> (r: bool)
    ensures
        r == meta_keys(pair_views(v@)).contains(k@),
{
    let ghost pv = pair_views(v@);
    let mut i: usize = 0;
    while i < v.len()
        invariant
            pv == pair_views(v@),
            i <= v@.len(),
            forall|j: int| 0 <= j < i ==> (#[trigger] meta_keys(pv)[j]) != k@,
        decreases v@.len() - i,
    {
        if str_eq(v[i].0.as_str(), k.as_str()) {
            assert(meta_keys(pv)[i as int] == k@);
            return true;
        }
        i += 1;
    }
    false
}

fn parse_dotted_pair(s: &[char]) -> (r: Option<(u8, u8)>)
    ensures
        r == dotted_pair(s@),
{
    match find_char(s, '.') {
        None => None,
        Some(i) => {
            let n = s.len();
            let a = sub_vec(s, 0, i);
            let b = sub_vec(s, i + 1, n);
            match (parse_decimal(a.as_slice(), 255), parse_decimal(b.as_slice(), 255)) {
                (Some(x), Some(y)) => Some((x as u8, y as u8)),
                _ => None,
            }
        },
    }
}

impl Metadata {
    /// A header with nothing recorded.
    pub fn new() -> (r: Metadata)
        ensures
            r@ == empty_meta(),
            meta_wf(r@),
    {
        Metadata {
            version: None,
            sequence_regions: None,
            feature_ontology_uri: None,
            attribute_ontology_uri: None,
            source_ontology_uri: None,
            species_uri: None,
            genome_build: None,
            other_meta: None,
        }
    }

    /// Reads a `gff-version` value; any value that does not start with `3` is
    /// refused.
    pub fn parse_version(s: &[char]) -> (r: Result<Option<(u8, u8)>, GffError>)
        ensures
            r == version_value(s@),
            (s@.len() == 0 || s@[0] != '3') ==> r is Err,
    {
        if s.len() == 1 && s[0] == '3' {
            assert(s@ =~= seq!['3']);
            return Ok(None);
        }
        assert(s@ != seq!['3']) by {
            if s@ == seq!['3'] {
                assert(s@.len() == 1 && s@[0] == '3');
            }
        }
        if s.len() >= 2 && s[0] == '3' && s[1] == '.' {
            let n = s.len();
            let rest = sub_vec(s, 2, n);
            match parse_dotted_pair(rest.as_slice()) {
                Some(v) => Ok(Some(v)),
                None => Err(GffError::InvalidVersion),
            }
        } else {
            Err(GffError::InvalidVersion)
        }
    }

    /// Reads a `sequence-region` value.
    pub fn parse_sequence_region(s: &[char]) -> (r: Result<(Vec<char>, Range<u64>), GffError>)
        ensures
            match r {
                Ok((id, range)) => region_value(s@) == Ok::<(Seq<char>, u64, u64), GffError>(
                    (id@, range.start, range.end),
                ),
                Err(e) => region_value(s@) == Err::<(Seq<char>, u64, u64), GffError>(e),
            },
    {
        let p = split_chars(s, ' ');
        let ghost pv = split_on(s@, ' ');
        assert forall|i: int| 0 <= i < p@.len() implies #[trigger] p@[i]@ == pv[i] by {
            assert(views(p@)[i] == p@[i]@);
        }
        if p.len() != 3 || !seq_id_chars(p[0].as_slice()) {
            return Err(GffError::ParseError(Field::SequenceRegion));
        }
        let start = parse_decimal(p[1].as_slice(), u64::MAX);
        let end = parse_decimal(p[2].as_slice(), u64::MAX);
        match (start, end) {
            (Some(a), Some(b)) => {
                let mut p = p;
                let _end_col = p.pop();
                let _start_col = p.pop();
                let id = p.pop().unwrap();
                Ok((id, Range { start: a, end: b }))
            },
            _ => Err(GffError::ParseError(Field::SequenceRegion)),
        }
    }

    fn set_regions(&mut self, k: UnescapedString, range: Range<u64>) -> (r: Result<(), GffError>)
        ensures
            regions_of(old(self)@).contains(k@) ==> r == Err::<(), GffError>(
                GffError::DuplicateSequence,
            ) && final(self)@ == old(self)@,
            !regions_of(old(self)@).contains(k@) ==> r is Ok && final(self)@ == (MetaView {
                sequence_regions: push_pair(old(self)@.sequence_regions, (k@, (range.start, range.end))),
                ..old(self)@
            }),
    {
        let ghost p = (k@, (range.start, range.end));
        match self.sequence_regions {
            Some(ref v) => {
                if find_region(v, &k) {
                    return Err(GffError::DuplicateSequence);
                }
            },
            None => {},
        }
        let mut v: Vec<(UnescapedString, Range<u64>)> = match self.sequence_regions.take() {
            Some(v) => v,
            None => Vec::new(),
        };
        let ghost before = region_views(v@);
        v.push((k, range));
        assert(region_views(v@) =~= before.push(p));
        assert(Seq::<(Seq<char>, (u64, u64))>::empty().push(p) =~= seq![p]);
        assert(old(self)@.sequence_regions is None ==> before =~= Seq::<(Seq<char>, (u64, u64))>::empty());
        self.sequence_regions = Some(v);
        Ok(())
    }

    fn has_meta(&self, k: &UnescapedString) -> (r: bool)
        ensures
            r == meta_keys_of(self@).contains(k@),
    {
        match self.other_meta {
            Some(ref v) => find_meta(v, k),
            None => false,
        }
    }

    fn push_meta(&mut self, k: UnescapedString, v: UnescapedString)
        ensures
            final(self)@ == (MetaView { other_meta: push_pair(old(self)@.other_meta, (k@, v@)), ..old(self)@ }),
    {
        let ghost p = (k@, v@);
        let mut o: Vec<(UnescapedString, UnescapedString)> = match self.other_meta.take() {
            Some(o) => o,
            None => Vec::new(),
        };
        let ghost before = pair_views(o@);
        o.push((k, v));
        assert(pair_views(o@) =~= before.push(p));
        assert(Seq::<(Seq<char>, Seq<char>)>::empty().push(p) =~= seq![p]);
        assert(old(self)@.other_meta is None ==> before =~= Seq::<(Seq<char>, Seq<char>)>::empty());
        self.other_meta = Some(o);
    }

    /// Applies a `##` pragma line, given without its `##`.
    pub fn parse_metadata(&mut self, line: &[char]) -> (r: Result<(), GffError>)
        ensures
            match pragma(old(self)@, line@) {
                Ok(m) => r is Ok && final(self)@ == m,
                Err(e) => r == Err::<(), GffError>(e) && final(self)@ == old(self)@,
            },
    {
        let i = match find_char(line, ' ') {
            None => {
                return Err(GffError::MalformedLine);
            },
            Some(i) => i,
        };
        let n = line.len();
        let kind = sub_vec(line, 0, i);
        let rem = sub_vec(line, i + 1, n);
        if is_word(kind.as_slice(), "gff-version") {
            let v = Self::parse_version(rem.as_slice())?;
            self.version = v;
        } else if is_word(kind.as_slice(), "sequence-region") {
            let (id, range) = Self::parse_sequence_region(rem.as_slice())?;
            let k = UnescapedString::from_chars(id.as_slice())?;
            self.set_regions(k, range)?;
        } else if is_word(kind.as_slice(), "feature-ontology") {
            self.feature_ontology_uri = Some(UnescapedString::from_chars(rem.as_slice())?);
        } else if is_word(kind.as_slice(), "attribute-ontology") {
            self.attribute_ontology_uri = Some(UnescapedString::from_chars(rem.as_slice())?);
        } else if is_word(kind.as_slice(), "source-ontology") {
            self.source_ontology_uri = Some(UnescapedString::from_chars(rem.as_slice())?);
        } else if is_word(kind.as_slice(), "species") {
            self.species_uri = Some(UnescapedString::from_chars(rem.as_slice())?);
        } else if is_word(kind.as_slice(), "genome-build") {
            let j = match find_char(rem.as_slice(), ' ') {
                None => {
                    return Err(GffError::InvalidGenomeBuild);
                },
                Some(j) => j,
            };
            let m = rem.len();
            let l = sub_vec(rem.as_slice(), 0, j);
            let r = sub_vec(rem.as_slice(), j + 1, m);
            let lv = UnescapedString::from_chars(l.as_slice())?;
            let rv = UnescapedString::from_chars(r.as_slice())?;
            self.genome_build = Some((lv, rv));
        } else {
            return Err(GffError::InvalidAttribute);
        }
        Ok(())
    }

    /// Applies a `#!` meta-attribute line, given without its `#!`.
    pub fn parse_domain_metadata(&mut self, line: &[char]) -> (r: Result<(), GffError>)
        ensures
            match domain_meta(old(self)@, line@) {
                Ok(m) => r is Ok && final(self)@ == m,
                Err(e) => r == Err::<(), GffError>(e) && final(self)@ == old(self)@,
            },
    {
        let i = match find_char(line, ' ') {
            None => {
                return Err(GffError::MalformedLine);
            },
            Some(i) => i,
        };
        let n = line.len();
        let key = sub_vec(line, 0, i);
        let val = sub_vec(line, i + 1, n);
        if is_word(key.as_slice(), "spec-version") {
            match parse_dotted_pair(val.as_slice()) {
                Some(v) => {
                    self.version = Some(v);
                    return Ok(());
                },
                None => {
                    return Err(GffError::InvalidVersion);
                },
            }
        }
        let k = UnescapedString::from_chars(key.as_slice())?;
        if self.has_meta(&k) {
            return Err(GffError::DuplicateMetaAttribute);
        }
        let v = UnescapedString::from_chars(val.as_slice())?;
        self.push_meta(k, v);
        Ok(())
    }

    /// Applies a header line given without its two-character prefix: a `#!`
    /// meta-attribute when `domain` holds, else a `##` pragma.
    pub fn parse_line_chars(&mut self, domain: bool, src: &[char]) -> (r: Result<(), GffError>)
        ensures
            match meta_line(old(self)@, domain, src@) {
                Ok(m) => r is Ok && final(self)@ == m,
                Err(e) => r == Err::<(), GffError>(e) && final(self)@ == old(self)@,
            },
    {
        if domain {
            self.parse_domain_metadata(src)
        } else {
            self.parse_metadata(src)
        }
    }

    /// Applies a header line given without its two-character prefix: a `#!`
    /// meta-attribute when `domain` holds, else a `##` pragma.
    pub fn parse_line(&mut self, domain: bool, src: &str) -> (r: Result<(), GffError>)
        ensures
            match meta_line(old(self)@, domain, src@) {
                Ok(m) => r is Ok && final(self)@ == m,
                Err(e) => r == Err::<(), GffError>(e) && final(self)@ == old(self)@,
            },
    {
        let v = chars_of(src);
        self.parse_line_chars(domain, v.as_slice())
    }
}

} // verus!
