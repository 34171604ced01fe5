//! GFF3 documents: the error kinds, strands, percent-decoded strings, entry
//! lines and the document assembler.

pub mod attr;
pub mod meta;
pub mod parsers;
pub mod write;

use vstd::prelude::*;

use std::ops::Range;

use vstd::utf8::{
    decode_utf8, encode_scalar, encode_utf8, has_width_1_encoding, last_continuation_byte,
    leading_byte_width_1, leading_byte_width_2, leading_byte_width_3, leading_byte_width_4,
    second_last_continuation_byte, third_last_continuation_byte, valid_utf8,
};

use crate::text::{
    all_digits, chars_of, lemma_split_once_at, split_chars, string_of, split_on, sub_vec, views,
};
use self::attr::{AttrView, AttributeSet, parse_attributes};
use self::meta::{
    MetaView, Metadata, empty_meta, version_gate, meta_line, meta_line_keeps_wf, meta_wf,
    pragma, region_value, regions_of,
};
use self::parsers::{Field, raw_entry};

verus! {

/// Why a GFF3 text was refused.
#[derive(Debug, Clone, Copy, PartialEq, Eq, Structural)]
pub enum GffError {
    /// A `tag=value` pair without `=`, an unknown pragma, or a `Target` or
    /// `Parent` value with a missing component.
    InvalidAttribute,
    /// Two `##sequence-region` pragmas name the same sequence.
    DuplicateSequence,
    /// A `##genome-build` value without a build name.
    InvalidGenomeBuild,
    /// A column or pragma value that does not match its grammar.
    ParseError(Field),
    /// A `%` not followed by two hex digits, or escapes whose bytes are not
    /// valid UTF-8.
    StringDecodeErr,
    /// A strand other than `+`, `-` or `?`.
    InvalidStrand,
    /// Two `#!` meta-attributes with the same key.
    DuplicateMetaAttribute,
    /// A pragma line without a value.
    MalformedLine,
    /// A number in an attribute that is not decimal digits or does not fit.
    FromStrErr,
    /// A `Gap` operation other than `M`, `I`, `D`, `F` or `R`.
    InvalidGapKind,
    /// An `Is_circular` value other than `true` or `false`.
    IsCircularNotBool,
    /// An unknown attribute tag that starts with an upper-case letter.
    ReservedAttribute,
    /// A `Target` value with more than four components or an empty id.
    MalformedTarget,
    /// A second `ID` attribute in one entry.
    DuplicateId,
    /// A `##gff-version` or `#!spec-version` value other than version 3.
    InvalidVersion,
}

/// The orientation of a feature.
#[derive(Debug, Clone, Copy, PartialEq, Eq, Hash, Structural)]
pub enum Strand {
    Positive,
    Negative,
    Unknown,
}

pub open spec fn strand_of(c: char) -> Result<Strand, GffError> {
    if c == '+' {
        Ok(Strand::Positive)
    } else if c == '-' {
        Ok(Strand::Negative)
    } else if c == '?' {
        Ok(Strand::Unknown)
    } else {
        Err(GffError::InvalidStrand)
    }
}

impl Strand {
    /// Reads `+`, `-` or `?`; every other character is refused.
    pub fn parse(src: char) -> (r: Result<Strand, GffError>)
        ensures
            r == strand_of(src),
            r is Ok <==> (src == '+' || src == '-' || src == '?'),
    {
        match src {
            '+' => Ok(Strand::Positive),
            '-' => Ok(Strand::Negative),
            '?' => Ok(Strand::Unknown),
            _ => Err(GffError::InvalidStrand),
        }
    }
}

/// The value of a byte that writes a hex digit.
pub open spec fn hex_value(b: u8) -> Option<nat> {
    if 0x30 <= b <= 0x39 {
        Some((b - 0x30) as nat)
    } else if 0x61 <= b <= 0x66 {
        Some((b - 0x61 + 10) as nat)
    } else if 0x41 <= b <= 0x46 {
        Some((b - 0x41 + 10) as nat)
    } else {
        None
    }
}

/// `p` followed by the bytes of `r`, if any.
pub open spec fn prepend(p: Seq<u8>, r: Option<Seq<u8>>) -> Option<Seq<u8>> {
    match r {
        Some(t) => Some(p + t),
        None => None,
    }
}

/// Percent-decoding of UTF-8 bytes: each `%XX` becomes the byte with hex
/// code `XX`, every other byte stands for itself, and decoded bytes are not
/// decoded again. `None` when a `%` is not followed by two hex digits.
pub open spec fn percent_decode(b: Seq<u8>) -> Option<Seq<u8>>
    decreases b.len(),
{
    if b.len() == 0 {
        Some(Seq::<u8>::empty())
    } else if b[0] == 0x25 {
        if b.len() < 3 {
            None
        } else {
            match (hex_value(b[1]), hex_value(b[2])) {
                (Some(h), Some(l)) => prepend(
                    seq![(h * 16 + l) as u8],
                    percent_decode(b.subrange(3, b.len() as int)),
                ),
                _ => None,
            }
        }
    } else {
        prepend(seq![b[0]], percent_decode(b.drop_first()))
    }
}

/// Decoding of escaped text: the text is taken as its UTF-8 bytes, each
/// `%XX` gives one byte, and the bytes that result are read as UTF-8. A
/// malformed escape, or bytes that are not valid UTF-8, is refused.
pub open spec fn unescape(s: Seq<char>) -> Result<Seq<char>, GffError> {
    match percent_decode(encode_utf8(s)) {
        Some(d) => if valid_utf8(d) {
            Ok(decode_utf8(d))
        } else {
            Err(GffError::StringDecodeErr)
        },
        None => Err(GffError::StringDecodeErr),
    }
}

/// Text whose percent-escapes have all been decoded.
#[derive(Debug, Clone, PartialEq, Eq, Hash)]
pub struct UnescapedString(String);

impl View for UnescapedString {
    type V = Seq<char>;

    closed spec fn view(&self) -> Seq<char> {
        self.0@
    }
}

/// The view of a result, with the error kept as it is.
pub open spec fn res_view<T: View>(r: Result<T, GffError>) -> Result<T::V, GffError> {
    match r {
        Ok(t) => Ok(t@),
        Err(e) => Err(e),
    }
}

/// Bytes without `%` decode to themselves.
proof fn lemma_percent_decode_plain(b: Seq<u8>)
    requires
        forall|i: int| 0 <= i < b.len() ==> b[i] != 0x25,
    ensures
        percent_decode(b) == Some(b),
    decreases b.len(),
{
    if b.len() > 0 {
        let t = b.drop_first();
        assert forall|i: int| 0 <= i < t.len() implies t[i] != 0x25 by {
            assert(t[i] == b[i + 1]);
        }
        lemma_percent_decode_plain(t);
        assert(seq![b[0]] + t =~= b);
    } else {
        assert(b =~= Seq::<u8>::empty());
    }
}

/// The UTF-8 encoding of a character other than `%` holds no `%` byte.
proof fn lemma_scalar_no_percent(c: char)
    requires
        c != '%',
    ensures
        forall|j: int|
            0 <= j < encode_scalar(c as u32).len() ==> #[trigger] encode_scalar(c as u32)[j] != 0x25,
{
    let u = c as u32;
    vstd::utf8::char_is_scalar(c);
    assert(u != 0x25) by {
        vstd::utf8::char_u32_cast(c, u);
    }
    if has_width_1_encoding(u) {
        assert(leading_byte_width_1(u) != 0x25) by (bit_vector)
            requires
                u <= 0x7F,
                u != 0x25,
        ;
    } else {
        assert(leading_byte_width_2(u) != 0x25 && leading_byte_width_3(u) != 0x25
            && leading_byte_width_4(u) != 0x25 && last_continuation_byte(u) != 0x25
            && second_last_continuation_byte(u) != 0x25 && third_last_continuation_byte(u) != 0x25)
            by (bit_vector);
    }
}

proof fn lemma_encode_no_percent(s: Seq<char>)
    requires
        forall|i: int| 0 <= i < s.len() ==> s[i] != '%',
    ensures
        forall|j: int| 0 <= j < encode_utf8(s).len() ==> encode_utf8(s)[j] != 0x25,
    decreases s.len(),
{
    if s.len() > 0 {
        let t = s.drop_first();
        assert forall|i: int| 0 <= i < t.len() implies t[i] != '%' by {
            assert(t[i] == s[i + 1]);
        }
        lemma_encode_no_percent(t);
        lemma_scalar_no_percent(s[0]);
        let e = encode_scalar(s[0] as u32);
        let b = encode_utf8(s);
        assert(b == e + encode_utf8(t));
        assert forall|j: int| 0 <= j < b.len() implies b[j] != 0x25 by {
            if j < e.len() {
                assert(b[j] == e[j]);
            } else {
                assert(b[j] == encode_utf8(t)[j - e.len()]);
            }
        }
    }
}

/// Text without a percent sign decodes to itself.
pub proof fn unescape_is_identity_without_percent(s: Seq<char>)
    requires
        forall|i: int| 0 <= i < s.len() ==> s[i] != '%',
    ensures
        unescape(s) == Ok::<Seq<char>, GffError>(s),
{
    lemma_encode_no_percent(s);
    lemma_percent_decode_plain(encode_utf8(s));
    vstd::utf8::encode_utf8_valid_utf8(s);
    vstd::utf8::encode_utf8_decode_utf8(s);
}

fn hex_digit(b: u8) -> (r: Option<u8>)
    ensures
        match hex_value(b) {
            Some(v) => r == Some(v as u8) && v < 16,
            None => r is None,
        },
{
    if 0x30 <= b && b <= 0x39 {
        Some(b - 0x30)
    } else if 0x61 <= b && b <= 0x66 {
        Some(b - 0x61 + 10)
    } else if 0x41 <= b && b <= 0x46 {
        Some(b - 0x41 + 10)
    } else {
        None
    }
}

/// Relies on `String::from_utf8`: the bytes are accepted exactly when they
/// are valid UTF-8, and the string then holds the characters they encode.
#[verifier::external_body]
fn string_from_utf8(b: Vec<u8>) -> (r: Option<String>)
    ensures
        r matches Some(s) ==> valid_utf8(b@) && s@ == decode_utf8(b@),
        r is None ==> !valid_utf8(b@),
{
    String::from_utf8(b).ok()
}

/// Percent-decodes a sequence of bytes.
fn percent_decode_bytes(src: &[u8]) -> (r: Option<Vec<u8>>)
    ensures
        match percent_decode(src@) {
            Some(d) => r matches Some(v) && v@ == d,
            None => r is None,
        },
{
    let mut out: Vec<u8> = Vec::new();
    let mut i: usize = 0;
    let n = src.len();
    assert(src@.subrange(0, n as int) =~= src@);
    while i < n
        invariant
            n == src@.len(),
            i <= n,
            percent_decode(src@) == prepend(out@, percent_decode(src@.subrange(i as int, n as int))),
        decreases n - i,
    {
        let ghost rest = src@.subrange(i as int, n as int);
        let c = src[i];
        if c == 0x25 {
            if n - i < 3 {
                return None;
            }
            assert(rest[1] == src@[i + 1] && rest[2] == src@[i + 2]);
            match (hex_digit(src[i + 1]), hex_digit(src[i + 2])) {
                (Some(h), Some(l)) => {
                    let b = h * 16 + l;
                    let ghost before = out@;
                    out.push(b);
                    assert(rest.subrange(3, rest.len() as int) =~= src@.subrange(i + 3, n as int));
                    assert forall|t: Seq<u8>| before + (seq![b] + t) == out@ + t by {
                        assert(before + (seq![b] + t) =~= out@ + t);
                    }
                    i += 3;
                },
                _ => {
                    return None;
                },
            }
        } else {
            let ghost before = out@;
            out.push(c);
            assert(rest.drop_first() =~= src@.subrange(i + 1, n as int));
            assert forall|t: Seq<u8>| before + (seq![c] + t) == out@ + t by {
                assert(before + (seq![c] + t) =~= out@ + t);
            }
            i += 1;
        }
    }
    assert(src@.subrange(n as int, n as int) =~= Seq::<u8>::empty());
    assert(out@ + Seq::<u8>::empty() =~= out@);
    Some(out)
}

impl UnescapedString {
    /// Decodes the percent-escapes of `src`.
    pub fn new(src: &str) -> (r: Result<UnescapedString, GffError>)
        ensures
            res_view(r) == unescape(src@),
            (forall|i: int| 0 <= i < src@.len() ==> src@[i] != '%') ==> (r matches Ok(u) && u@
                == src@),
    {
        proof {
            if forall|i: int| 0 <= i < src@.len() ==> src@[i] != '%' {
                unescape_is_identity_without_percent(src@);
            }
        }
        match percent_decode_bytes(src.as_bytes()) {
            None => Err(GffError::StringDecodeErr),
            Some(d) => match string_from_utf8(d) {
                Some(s) => Ok(UnescapedString(s)),
                None => Err(GffError::StringDecodeErr),
            },
        }
    }

    /// Decodes the percent-escapes of `src`.
    pub fn from_chars(src: &[char]) -> (r: Result<UnescapedString, GffError>)
        ensures
            res_view(r) == unescape(src@),
    {
        let s = string_of(src);
        UnescapedString::new(s.as_str())
    }

    /// The decoded text.
    pub fn as_str(&self) -> (r: &str)
        ensures
            r@ == self@,
    {
        self.0.as_str()
    }
}

/// One annotation line.
#[derive(Debug)]
pub struct Entry {
    pub seq_id: UnescapedString,
    pub source: UnescapedString,
    pub feature_type: UnescapedString,
    pub range: Range<usize>,
    /// The text of the score, when the column is not `.`.
    pub score: Option<String>,
    pub strand: Option<Strand>,
    pub phase: Option<u8>,
    pub attrs: AttributeSet,
}

pub struct EntryView {
    pub seq_id: Seq<char>,
    pub source: Seq<char>,
    pub feature_type: Seq<char>,
    pub range: (usize, usize),
    pub score: Option<Seq<char>>,
    pub strand: Option<Strand>,
    pub phase: Option<u8>,
    pub attrs: AttrView,
}

impl View for Entry {
    type V = EntryView;

    open spec fn view(&self) -> EntryView {
        EntryView {
            seq_id: self.seq_id@,
            source: self.source@,
            feature_type: self.feature_type@,
            range: (self.range.start, self.range.end),
            score: match self.score {
                Some(s) => Some(s@),
                None => None,
            },
            strand: self.strand,
            phase: self.phase,
            attrs: self.attrs@,
        }
    }
}

/// An entry line: its columns meet their grammar, then the three text
/// columns are percent-decoded and the attributes read, in that order.
pub open spec fn entry_spec(line: Seq<char>) -> Result<EntryView, GffError> {
    match raw_entry(line) {
        Err(e) => Err(e),
        Ok(raw) => match unescape(raw.seq_id) {
            Err(e) => Err(e),
            Ok(seq_id) => match unescape(raw.source) {
                Err(e) => Err(e),
                Ok(source) => match unescape(raw.feature_type) {
                    Err(e) => Err(e),
                    Ok(feature_type) => match parse_attributes(raw.attributes) {
                        Err(e) => Err(e),
                        Ok(attrs) => Ok(
                            EntryView {
                                seq_id,
                                source,
                                feature_type,
                                range: (raw.start, raw.end),
                                score: raw.score,
                                strand: raw.strand,
                                phase: raw.phase,
                                attrs,
                            },
                        ),
                    },
                },
            },
        },
    }
}

impl Entry {
    /// Reads an entry line given as characters.
    pub fn parse_chars(line: &[char]) -> (r: Result<Entry, GffError>)
        ensures
            res_view(r) == entry_spec(line@),
    {
        let raw = parsers::entry(line)?;
        let seq_id = UnescapedString::from_chars(raw.seq_id.as_slice())?;
        let source = UnescapedString::from_chars(raw.source.as_slice())?;
        let feature_type = UnescapedString::from_chars(raw.feature_type.as_slice())?;
        let attrs = AttributeSet::parse_chars(raw.attributes.as_slice())?;
        Ok(
            Entry {
                seq_id,
                source,
                feature_type,
                range: Range { start: raw.start, end: raw.end },
                score: raw.score,
                strand: raw.strand,
                phase: raw.phase,
                attrs,
            },
        )
    }

    /// Reads an entry line: nine tab-separated columns.
    pub fn parse(line: &str) -> (r: Result<Entry, GffError>)
        ensures
            res_view(r) == entry_spec(line@),
    {
        let v = chars_of(line);
        Entry::parse_chars(v.as_slice())
    }
}

/// A GFF3 document: its header and its entries in order.
#[derive(Debug)]
pub struct GFF {
    pub metadata: Metadata,
    pub entries: Vec<Entry>,
}

pub struct GffView {
    pub metadata: MetaView,
    pub entries: Seq<EntryView>,
}

pub open spec fn entry_views(v: Seq<Entry>) -> Seq<EntryView> {
    v.map_values(|e: Entry| e@)
}

impl View for GFF {
    type V = GffView;

    open spec fn view(&self) -> GffView {
        GffView { metadata: self.metadata@, entries: entry_views(self.entries@) }
    }
}

/// A line without the carriage return that may end it.
pub open spec fn strip_cr(l: Seq<char>) -> Seq<char> {
    if l.len() > 0 && l.last() == '\r' {
        l.drop_last()
    } else {
        l
    }
}

/// The document `d` after one line, and whether the line ends the
/// document: blank lines and `#` comments change nothing, `###` ends the
/// document, `##` and `#!` lines go to the header and other lines are
/// entries.
#[verifier::opaque]
pub open spec fn doc_step(d: GffView, line: Seq<char>) -> Result<(GffView, bool), GffError> {
    let l = strip_cr(line);
    if l.len() == 0 {
        Ok((d, false))
    } else if l.len() >= 3 && l[0] == '#' && l[1] == '#' && l[2] == '#' {
        Ok((d, true))
    } else if l.len() >= 2 && l[0] == '#' && (l[1] == '#' || l[1] == '!') {
        match meta_line(d.metadata, l[1] == '!', l.subrange(2, l.len() as int)) {
            Ok(m) => Ok((GffView { metadata: m, ..d }, false)),
            Err(e) => Err(e),
        }
    } else if l[0] == '#' {
        Ok((d, false))
    } else {
        match entry_spec(l) {
            Ok(e) => Ok((GffView { entries: d.entries.push(e), ..d }, false)),
            Err(e) => Err(e),
        }
    }
}

/// The document after the first `n` lines; once ended, later lines are not
/// read.
pub open spec fn doc_fold(lines: Seq<Seq<char>>, n: nat) -> Result<(GffView, bool), GffError>
    decreases n,
{
    if n == 0 {
        Ok((GffView { metadata: empty_meta(), entries: Seq::empty() }, false))
    } else {
        match doc_fold(lines, (n - 1) as nat) {
            Err(e) => Err(e),
            Ok((d, true)) => Ok((d, true)),
            Ok((d, false)) => doc_step(d, lines[n - 1]),
        }
    }
}

/// A whole document, split into lines at line feeds.
pub open spec fn parse_document(src: Seq<char>) -> Result<GffView, GffError> {
    let lines = split_on(src, '\n');
    match doc_fold(lines, lines.len()) {
        Ok((d, _)) => Ok(d),
        Err(e) => Err(e),
    }
}

proof fn lemma_doc_settled(lines: Seq<Seq<char>>, k: nat, n: nat)
    requires
        k <= n,
        doc_fold(lines, k) is Err || doc_fold(lines, k) matches Ok((_, true)),
    ensures
        doc_fold(lines, n) == doc_fold(lines, k),
    decreases n - k,
{
    if k < n {
        lemma_doc_settled(lines, k, (n - 1) as nat);
    }
}

/// Every prefix of a document leaves a well-formed header.
pub proof fn doc_fold_keeps_wf(lines: Seq<Seq<char>>, n: nat)
    requires
        doc_fold(lines, n) is Ok,
    ensures
        meta_wf(doc_fold(lines, n)->Ok_0.0.metadata),
    decreases n,
{
    reveal(doc_step);
    if n > 0 {
        doc_fold_keeps_wf(lines, (n - 1) as nat);
        let prev = doc_fold(lines, (n - 1) as nat)->Ok_0;
        if !prev.1 {
            let l = strip_cr(lines[n - 1]);
            if l.len() >= 2 && l[0] == '#' && (l[1] == '#' || l[1] == '!') && !(l.len() >= 3
                && l[0] == '#' && l[1] == '#' && l[2] == '#') {
                meta_line_keeps_wf(prev.0.metadata, l[1] == '!', l.subrange(2, l.len() as int));
            }
        }
    } else {
        assert(meta_wf(empty_meta()));
    }
}

/// A line that ends the document.
pub open spec fn is_terminator(line: Seq<char>) -> bool {
    let l = strip_cr(line);
    l.len() >= 3 && l[0] == '#' && l[1] == '#' && l[2] == '#'
}

/// The `##sequence-region` pragma line with value `rem`.
pub open spec fn region_line(rem: Seq<char>) -> Seq<char> {
    seq!['#', '#'] + "sequence-region"@ + seq![' '] + rem
}

proof fn lemma_no_end(lines: Seq<Seq<char>>, n: nat)
    requires
        forall|m: int| 0 <= m < n ==> !is_terminator(#[trigger] lines[m]),
    ensures
        doc_fold(lines, n) is Err || doc_fold(lines, n) matches Ok((_, false)),
    decreases n,
{
    reveal(doc_step);
    if n > 0 {
        lemma_no_end(lines, (n - 1) as nat);
        assert(!is_terminator(lines[n - 1]));
    }
}

proof fn lemma_step_keeps_regions(d: GffView, line: Seq<char>, k: Seq<char>)
    requires
        regions_of(d.metadata).contains(k),
        doc_step(d, line) is Ok,
    ensures
        regions_of(doc_step(d, line)->Ok_0.0.metadata).contains(k),
{
    reveal(doc_step);
    let l = strip_cr(line);
    if l.len() >= 2 && l[0] == '#' && (l[1] == '#' || l[1] == '!') && !(l.len() >= 3 && l[2]
        == '#' && l[1] == '#') {
        let m2 = meta_line(d.metadata, l[1] == '!', l.subrange(2, l.len() as int))->Ok_0;
        let ks = regions_of(d.metadata);
        let i = choose|i: int| 0 <= i < ks.len() && ks[i] == k;
        if m2.sequence_regions != d.metadata.sequence_regions {
            let ks2 = regions_of(m2);
            assert(ks2[i] == ks[i]);
        }
    }
}

proof fn lemma_region_line(d: GffView, rem: Seq<char>)
    requires
        region_value(rem) is Ok,
    ensures
        strip_cr(region_line(rem)) == region_line(rem),
        !is_terminator(region_line(rem)),
        doc_step(d, region_line(rem)) == match pragma(d.metadata, "sequence-region"@ + seq![' '] + rem) {
            Ok(m) => Ok((GffView { metadata: m, ..d }, false)),
            Err(e) => Err(e),
        },
{
    reveal(doc_step);
    reveal_strlit("sequence-region");
    let l = region_line(rem);
    let p = split_on(rem, ' ');
    let last = p[2];
    assert(all_digits(last));
    assert(rem.len() > 0 && rem.last() != '\r') by {
        crate::text::lemma_split_on_nonempty(rem, ' ');
        lemma_last_piece(rem, ' ');
    }
    assert(l.last() == rem.last());
    assert(l[2] == 's');
    assert(l.subrange(2, l.len() as int) =~= "sequence-region"@ + seq![' '] + rem);
}

/// The last piece of a split is a suffix of the text.
proof fn lemma_last_piece(s: Seq<char>, sep: char)
    ensures
        split_on(s, sep).len() >= 1,
        split_on(s, sep).last().len() > 0 ==> s.len() > 0 && s.last() == split_on(s, sep).last().last(),
    decreases s.len(),
{
    crate::text::lemma_split_on_nonempty(s, sep);
    if s.len() > 0 {
        lemma_last_piece(s.drop_last(), sep);
    }
}

proof fn lemma_region_adds(m: MetaView, rem: Seq<char>)
    requires
        region_value(rem) is Ok,
        pragma(m, "sequence-region"@ + seq![' '] + rem) is Ok,
    ensures
        unescape(region_value(rem)->Ok_0.0) is Ok,
        regions_of(pragma(m, "sequence-region"@ + seq![' '] + rem)->Ok_0).contains(
            unescape(region_value(rem)->Ok_0.0)->Ok_0,
        ),
{
    reveal_strlit("sequence-region");
    reveal_strlit("gff-version");
    lemma_split_once_at("sequence-region"@, ' ', rem);
    let k = unescape(region_value(rem)->Ok_0.0)->Ok_0;
    let ks = regions_of(pragma(m, "sequence-region"@ + seq![' '] + rem)->Ok_0);
    assert(ks.len() > 0 && ks[ks.len() - 1] == k);
}

proof fn lemma_region_dup(m: MetaView, rem: Seq<char>, k: Seq<char>)
    requires
        region_value(rem) is Ok,
        unescape(region_value(rem)->Ok_0.0) == Ok::<Seq<char>, GffError>(k),
        regions_of(m).contains(k),
    ensures
        pragma(m, "sequence-region"@ + seq![' '] + rem) == Err::<MetaView, GffError>(
            GffError::DuplicateSequence,
        ),
{
    reveal_strlit("sequence-region");
    reveal_strlit("gff-version");
    lemma_split_once_at("sequence-region"@, ' ', rem);
}

/// A document that declares the same sequence region twice, with no end
/// line before the second declaration, is refused, whatever the two ranges.
pub proof fn duplicate_region_document(src: Seq<char>, i: int, j: int, rem1: Seq<char>, rem2: Seq<char>)
    requires
        0 <= i < j < split_on(src, '\n').len(),
        split_on(src, '\n')[i] == region_line(rem1),
        split_on(src, '\n')[j] == region_line(rem2),
        region_value(rem1) is Ok,
        region_value(rem2) is Ok,
        region_value(rem1)->Ok_0.0 == region_value(rem2)->Ok_0.0,
        forall|m: int| 0 <= m < j ==> !is_terminator(#[trigger] split_on(src, '\n')[m]),
    ensures
        parse_document(src) is Err,
{
    let lines = split_on(src, '\n');
    lemma_no_end(lines, i as nat);
    if doc_fold(lines, (i + 1) as nat) is Ok {
        let d0 = doc_fold(lines, i as nat)->Ok_0.0;
        lemma_region_line(d0, rem1);
        lemma_region_adds(d0.metadata, rem1);
        let k = unescape(region_value(rem1)->Ok_0.0)->Ok_0;
        lemma_regions_until(lines, i + 1, j, k);
        lemma_no_end(lines, j as nat);
        if doc_fold(lines, j as nat) is Ok {
            let dj = doc_fold(lines, j as nat)->Ok_0.0;
            lemma_region_line(dj, rem2);
            lemma_region_dup(dj.metadata, rem2, k);
            assert(doc_fold(lines, (j + 1) as nat) is Err);
            lemma_doc_settled(lines, (j + 1) as nat, lines.len());
        } else {
            lemma_doc_settled(lines, j as nat, lines.len());
        }
    } else {
        lemma_doc_settled(lines, (i + 1) as nat, lines.len());
    }
}

/// The `##gff-version` pragma line with value `v`.
pub open spec fn version_line(v: Seq<char>) -> Seq<char> {
    seq!['#', '#'] + "gff-version"@ + seq![' '] + v
}

proof fn lemma_version_line(d: GffView, v: Seq<char>)
    requires
        v.len() == 0 || v[0] != '3',
    ensures
        !is_terminator(version_line(v)),
        doc_step(d, version_line(v)) == Err::<(GffView, bool), GffError>(GffError::InvalidVersion),
{
    reveal(doc_step);
    reveal_strlit("gff-version");
    let line = version_line(v);
    let w = strip_cr(v);
    assert(w.len() == 0 || w[0] != '3');
    assert(strip_cr(line) =~= seq!['#', '#'] + "gff-version"@ + seq![' '] + w);
    let l = strip_cr(line);
    assert(l[2] == 'g');
    assert(l.subrange(2, l.len() as int) =~= "gff-version"@ + seq![' '] + w);
    version_gate(d.metadata, w);
}

/// A document with a `##gff-version` line whose value does not start with
/// `3`, and no end line before it, is refused.
pub proof fn version_gate_document(src: Seq<char>, j: int, v: Seq<char>)
    requires
        0 <= j < split_on(src, '\n').len(),
        split_on(src, '\n')[j] == version_line(v),
        v.len() == 0 || v[0] != '3',
        forall|m: int| 0 <= m < j ==> !is_terminator(#[trigger] split_on(src, '\n')[m]),
    ensures
        parse_document(src) is Err,
{
    let lines = split_on(src, '\n');
    lemma_no_end(lines, j as nat);
    if doc_fold(lines, j as nat) is Ok {
        lemma_version_line(doc_fold(lines, j as nat)->Ok_0.0, v);
        assert(doc_fold(lines, (j + 1) as nat) is Err);
        lemma_doc_settled(lines, (j + 1) as nat, lines.len());
    } else {
        lemma_doc_settled(lines, j as nat, lines.len());
    }
}

proof fn lemma_regions_until(lines: Seq<Seq<char>>, a: int, b: int, k: Seq<char>)
    requires
        0 < a <= b <= lines.len(),
        forall|m: int| 0 <= m < b ==> !is_terminator(#[trigger] lines[m]),
        doc_fold(lines, a as nat) is Ok ==> regions_of(doc_fold(lines, a as nat)->Ok_0.0.metadata).contains(k),
    ensures
        doc_fold(lines, b as nat) is Ok ==> regions_of(doc_fold(lines, b as nat)->Ok_0.0.metadata).contains(k),
    decreases b - a,
{
    if a < b {
        lemma_regions_until(lines, a, b - 1, k);
        lemma_no_end(lines, (b - 1) as nat);
        if doc_fold(lines, b as nat) is Ok {
            let d = doc_fold(lines, (b - 1) as nat)->Ok_0.0;
            lemma_step_keeps_regions(d, lines[b - 1], k);
        }
    }
}

impl GFF {
    #[verifier::rlimit(40)]
    fn apply_line(&mut self, line: &[char]) -> (r: Result<bool, GffError>)
        ensures
            match doc_step(old(self)@, line@) {
                Ok((d, stop)) => r == Ok::<bool, GffError>(stop) && final(self)@ == d,
                Err(e) => r == Err::<bool, GffError>(e),
            },
    {
        proof {
            reveal(doc_step);
        }
        let n = line.len();
        let l = if n > 0 && line[n - 1] == '\r' {
            sub_vec(line, 0, n - 1)
        } else {
            sub_vec(line, 0, n)
        };
        assert(l@ =~= strip_cr(line@));
        let m = l.len();
        if m == 0 {
            Ok(false)
        } else if m >= 3 && l[0] == '#' && l[1] == '#' && l[2] == '#' {
            Ok(true)
        } else if m >= 2 && l[0] == '#' && (l[1] == '#' || l[1] == '!') {
            let rest = sub_vec(l.as_slice(), 2, m);
            let domain = l[1] == '!';
            self.metadata.parse_line_chars(domain, rest.as_slice())?;
            Ok(false)
        } else if l[0] == '#' {
            Ok(false)
        } else {
            let e = Entry::parse_chars(l.as_slice())?;
            let ghost before = entry_views(self.entries@);
            let ghost ev = e@;
            self.entries.push(e);
            assert(entry_views(self.entries@) =~= before.push(ev));
            Ok(false)
        }
    }

    /// Reads a GFF3 document.
    pub fn parse(src: &str) -> (r: Result<GFF, GffError>)
        ensures
            res_view(r) == parse_document(src@),
            r matches Ok(d) ==> meta_wf(d.metadata@),
    {
        match GFF::parse_with_line(src) {
            Ok(d) => Ok(d),
            Err((_, e)) => Err(e),
        }
    }

    /// Reads a GFF3 document; a failure also gives the index of the line,
    /// counted from 0, that the error comes from.
    pub fn parse_with_line(src: &str) -> (r: Result<GFF, (usize, GffError)>)
        ensures
            match r {
                Ok(d) => parse_document(src@) == Ok::<GffView, GffError>(d@) && meta_wf(d.metadata@),
                Err((i, e)) => {
                    &&& parse_document(src@) == Err::<GffView, GffError>(e)
                    &&& i < split_on(src@, '\n').len()
                    &&& doc_fold(split_on(src@, '\n'), i as nat) matches Ok((d, false))
                    &&& doc_step(d, split_on(src@, '\n')[i as int]) == Err::<(GffView, bool), GffError>(e)
                },
            },
    {
        let text = chars_of(src);
        let lines = split_chars(text.as_slice(), '\n');
        let ghost lv = split_on(src@, '\n');
        assert forall|i: int| 0 <= i < lines@.len() implies #[trigger] lines@[i]@ == lv[i] by {
            assert(views(lines@)[i] == lines@[i]@);
        }
        let mut doc = GFF { metadata: Metadata::new(), entries: Vec::new() };
        assert(entry_views(doc.entries@) =~= Seq::<EntryView>::empty());
        let mut i: usize = 0;
        while i < lines.len()
            invariant
                lv == split_on(src@, '\n'),
                lv.len() == lines@.len(),
                forall|j: int| 0 <= j < lines@.len() ==> #[trigger] lines@[j]@ == lv[j],
                i <= lines@.len(),
                doc_fold(lv, i as nat) == Ok::<(GffView, bool), GffError>((doc@, false)),
            decreases lines@.len() - i,
        {
            match doc.apply_line(lines[i].as_slice()) {
                Ok(true) => {
                    proof {
                        lemma_doc_settled(lv, i as nat + 1, lv.len());
                        doc_fold_keeps_wf(lv, lv.len());
                    }
                    return Ok(doc);
                },
                Ok(false) => {},
                Err(e) => {
                    proof {
                        lemma_doc_settled(lv, i as nat + 1, lv.len());
                    }
                    return Err((i, e));
                },
            }
            i += 1;
        }
        proof {
            doc_fold_keeps_wf(lv, lv.len());
        }
        Ok(doc)
    }
}

impl std::str::FromStr for Entry {
    type Err = GffError;

    /// Reads an entry line, as `Entry::parse` does.
    fn from_str(s: &str) -> (r: Result<Entry, GffError>)
        ensures
            res_view(r) == entry_spec(s@),
    {
        Entry::parse(s)
    }
}

impl std::str::FromStr for GFF {
    type Err = GffError;

    /// Reads a document, as `GFF::parse` does.
    fn from_str(s: &str) -> (r: Result<GFF, GffError>)
        ensures
            res_view(r) == parse_document(s@),
    {
        GFF::parse(s)
    }
}

} // verus!
