//! The grammar of the nine tab-separated columns of an entry line.

use vstd::prelude::*;

use crate::gff::{GffError, Strand, res_view};
use crate::text::{
    is_digit, all_digits, chars_of, decimal_value, decimal_within, parse_decimal, split_chars, split_on,
    string_of, views,
};

verus! {

/// The column or pragma value whose grammar was not met.
#[derive(Debug, Clone, Copy, PartialEq, Eq, Hash, Structural)]
pub enum Field {
    SeqId,
    Source,
    FeatureType,
    Start,
    End,
    Score,
    Strand,
    Phase,
    Attributes,
    /// Input left over after the attributes column.
    Trailing,
    SequenceRegion,
}

pub open spec fn is_alnum(c: char) -> bool {
    ('a' <= c <= 'z') || ('A' <= c <= 'Z') || ('0' <= c <= '9')
}

/// A character allowed in a sequence id.
pub open spec fn is_seq_id_char(c: char) -> bool {
    is_alnum(c) || c == '.' || c == ':' || c == '^' || c == '*' || c == '$' || c == '@' || c == '!'
        || c == '+' || c == '_' || c == '?' || c == '-' || c == '|' || c == '%' || c == '>'
}

/// A character allowed in the attributes column.
pub open spec fn is_attr_char(c: char) -> bool {
    is_alnum(c) || c == '.' || c == ':' || c == '^' || c == '*' || c == '$' || c == '@' || c == '!'
        || c == '+' || c == '_' || c == '?' || c == '-' || c == '|' || c == '%' || c == '=' || c
        == ',' || c == ' ' || c == '"' || c == '\'' || c == '(' || c == ')' || c == '/' || c == ';'
}

/// A non-empty sequence id that does not start with `>`.
pub open spec fn valid_seq_id(s: Seq<char>) -> bool {
    s.len() > 0 && s[0] != '>' && forall|i: int| 0 <= i < s.len() ==> is_seq_id_char(s[i])
}

/// Non-empty text without tab, carriage return or line feed.
pub open spec fn valid_free_text(s: Seq<char>) -> bool {
    s.len() > 0 && forall|i: int|
        0 <= i < s.len() ==> s[i] != '\t' && s[i] != '\r' && s[i] != '\n'
}

pub open spec fn valid_attributes(s: Seq<char>) -> bool {
    s.len() > 0 && forall|i: int| 0 <= i < s.len() ==> is_attr_char(s[i])
}

/// Digits only, possibly none.
pub open spec fn only_digits(s: Seq<char>) -> bool {
    forall|i: int| 0 <= i < s.len() ==> is_digit(#[trigger] s[i])
}

/// `s` without one leading `+` or `-`.
pub open spec fn without_sign(s: Seq<char>) -> Seq<char> {
    if s.len() > 0 && (s[0] == '+' || s[0] == '-') {
        s.drop_first()
    } else {
        s
    }
}

/// Digits with at most one `.` among them, and at least one digit:
/// `D+ ('.' D*)?` or `'.' D+`.
pub open spec fn mantissa(m: Seq<char>) -> bool {
    all_digits(m) || exists|k: int|
        0 <= k < m.len() && #[trigger] m[k] == '.' && only_digits(m.subrange(0, k)) && only_digits(
            m.subrange(k + 1, m.len() as int),
        ) && m.len() > 1
}

/// A decimal number: an optional sign, a mantissa and an optional exponent
/// `[eE] [+-]? D+`.
pub open spec fn decimal_float(s: Seq<char>) -> bool {
    let t = without_sign(s);
    exists|k: int|
        0 <= k <= t.len() && mantissa(#[trigger] t.subrange(0, k)) && (k == t.len() || ((t[k]
            == 'e' || t[k] == 'E') && all_digits(without_sign(t.subrange(k + 1, t.len() as int)))))
}

/// `nan` or `inf` in any case, with nothing around it.
pub open spec fn special_float(s: Seq<char>) -> bool {
    s.len() == 3 && ((('n' == s[0] || 'N' == s[0]) && ('a' == s[1] || 'A' == s[1]) && ('n' == s[2]
        || 'N' == s[2])) || (('i' == s[0] || 'I' == s[0]) && ('n' == s[1] || 'N' == s[1]) && ('f'
        == s[2] || 'F' == s[2])))
}

/// The texts that nom's floating-point parser reads whole: a decimal
/// number, or `nan` or `inf` without sign.
pub open spec fn float_literal(s: Seq<char>) -> bool {
    decimal_float(s) || special_float(s)
}

/// Relies on nom's `double` (`recognize_float_or_exceptions`, then
/// `str::parse`), held to its whole input by `all_consuming`: it reads the
/// text exactly when the text is a decimal number or `nan` / `inf`.
#[verifier::external_body]
fn is_float_literal(s: &str) -> (r: bool)
    ensures
        r == float_literal(s@),
{
    let mut whole = nom::combinator::all_consuming(
        nom::number::complete::double::<&str, nom::error::Error<&str>>,
    );
    whole(s).is_ok()
}

/// The score column: `.` for none, else the text of a floating-point number.
pub open spec fn score_column(s: Seq<char>) -> Option<Option<Seq<char>>> {
    if s == seq!['.'] {
        Some(None)
    } else if float_literal(s) {
        Some(Some(s))
    } else {
        None
    }
}

/// The strand column: `.` for none, else one of `+`, `-`, `?`.
pub open spec fn strand_column(s: Seq<char>) -> Option<Option<Strand>> {
    if s == seq!['.'] {
        Some(None)
    } else if s == seq!['+'] {
        Some(Some(Strand::Positive))
    } else if s == seq!['-'] {
        Some(Some(Strand::Negative))
    } else if s == seq!['?'] {
        Some(Some(Strand::Unknown))
    } else {
        None
    }
}

/// The phase column: `.` for none, else one of `0`, `1`, `2`.
pub open spec fn phase_column(s: Seq<char>) -> Option<Option<u8>> {
    if s == seq!['.'] {
        Some(None)
    } else if s == seq!['0'] {
        Some(Some(0u8))
    } else if s == seq!['1'] {
        Some(Some(1u8))
    } else if s == seq!['2'] {
        Some(Some(2u8))
    } else {
        None
    }
}

/// A range bound: decimal digits whose value fits a `usize`.
pub open spec fn bound_column(s: Seq<char>, field: Field) -> Result<usize, GffError> {
    if decimal_within(s, usize::MAX as nat) {
        Ok(decimal_value(s) as usize)
    } else {
        Err(GffError::ParseError(field))
    }
}

/// The nine columns of an entry line, each checked against its grammar.
pub struct RawView {
    pub seq_id: Seq<char>,
    pub source: Seq<char>,
    pub feature_type: Seq<char>,
    pub start: usize,
    pub end: usize,
    pub score: Option<Seq<char>>,
    pub strand: Option<Strand>,
    pub phase: Option<u8>,
    pub attributes: Seq<char>,
}

/// An entry line split on tabs: the first column that is missing or breaks
/// its grammar is reported; a tenth column is refused.
pub open spec fn raw_entry(line: Seq<char>) -> Result<RawView, GffError> {
    let f = split_on(line, '\t');
    if !(f.len() > 0 && valid_seq_id(f[0])) {
        Err(GffError::ParseError(Field::SeqId))
    } else if !(f.len() > 1 && valid_free_text(f[1])) {
        Err(GffError::ParseError(Field::Source))
    } else if !(f.len() > 2 && valid_free_text(f[2])) {
        Err(GffError::ParseError(Field::FeatureType))
    } else if !(f.len() > 3 && decimal_within(f[3], usize::MAX as nat)) {
        Err(GffError::ParseError(Field::Start))
    } else if !(f.len() > 4 && decimal_within(f[4], usize::MAX as nat)) {
        Err(GffError::ParseError(Field::End))
    } else if !(f.len() > 5 && score_column(f[5]) is Some) {
        Err(GffError::ParseError(Field::Score))
    } else if !(f.len() > 6 && strand_column(f[6]) is Some) {
        Err(GffError::ParseError(Field::Strand))
    } else if !(f.len() > 7 && phase_column(f[7]) is Some) {
        Err(GffError::ParseError(Field::Phase))
    } else if !(f.len() > 8 && valid_attributes(f[8])) {
        Err(GffError::ParseError(Field::Attributes))
    } else if f.len() > 9 {
        Err(GffError::ParseError(Field::Trailing))
    } else {
        Ok(
            RawView {
                seq_id: f[0],
                source: f[1],
                feature_type: f[2],
                start: decimal_value(f[3]) as usize,
                end: decimal_value(f[4]) as usize,
                score: score_column(f[5])->0,
                strand: strand_column(f[6])->0,
                phase: phase_column(f[7])->0,
                attributes: f[8],
            },
        )
    }
}

/// The columns of an entry line that met their grammar.
pub struct RawEntry {
    pub seq_id: Vec<char>,
    pub source: Vec<char>,
    pub feature_type: Vec<char>,
    pub start: usize,
    pub end: usize,
    pub score: Option<String>,
    pub strand: Option<Strand>,
    pub phase: Option<u8>,
    pub attributes: Vec<char>,
}

impl View for RawEntry {
    type V = RawView;

    open spec fn view(&self) -> RawView {
        RawView {
            seq_id: self.seq_id@,
            source: self.source@,
            feature_type: self.feature_type@,
            start: self.start,
            end: self.end,
            score: match self.score {
                Some(s) => Some(s@),
                None => None,
            },
            strand: self.strand,
            phase: self.phase,
            attributes: self.attributes@,
        }
    }
}

fn is_alnum_char(c: char) -> (r: bool)
    ensures
        r == is_alnum(c),
{
    ('a' <= c && c <= 'z') || ('A' <= c && c <= 'Z') || ('0' <= c && c <= '9')
}

fn seq_id_char(c: char) -> (r: bool)
    ensures
        r == is_seq_id_char(c),
{
    is_alnum_char(c) || c == '.' || c == ':' || c == '^' || c == '*' || c == '$' || c == '@' || c
        == '!' || c == '+' || c == '_' || c == '?' || c == '-' || c == '|' || c == '%' || c == '>'
}

fn attr_char(c: char) -> (r: bool)
    ensures
        r == is_attr_char(c),
{
    is_alnum_char(c) || c == '.' || c == ':' || c == '^' || c == '*' || c == '$' || c == '@' || c
        == '!' || c == '+' || c == '_' || c == '?' || c == '-' || c == '|' || c == '%' || c == '='
        || c == ',' || c == ' ' || c == '"' || c == '\'' || c == '(' || c == ')' || c == '/' || c
        == ';'
}

/// Whether `s` is a valid sequence id.
pub fn seq_id_chars(s: &[char]) -> (r: bool)
    ensures
        r == valid_seq_id(s@),
{
    if s.len() == 0 || s[0] == '>' {
        return false;
    }
    let mut i: usize = 0;
    while i < s.len()
        invariant
            i <= s@.len(),
            forall|j: int| 0 <= j < i ==> is_seq_id_char(s@[j]),
        decreases s@.len() - i,
    {
        if !seq_id_char(s[i]) {
            return false;
        }
        i += 1;
    }
    true
}

/// Whether `s` is valid source or feature-type text.
pub fn free_text_chars(s: &[char]) -> (r: bool)
    ensures
        r == valid_free_text(s@),
{
    if s.len() == 0 {
        return false;
    }
    let mut i: usize = 0;
    while i < s.len()
        invariant
            i <= s@.len(),
            forall|j: int| 0 <= j < i ==> s@[j] != '\t' && s@[j] != '\r' && s@[j] != '\n',
        decreases s@.len() - i,
    {
        if s[i] == '\t' || s[i] == '\r' || s[i] == '\n' {
            return false;
        }
        i += 1;
    }
    true
}

/// Whether `s` is a valid attributes column.
pub fn attributes_chars(s: &[char]) -> (r: bool)
    ensures
        r == valid_attributes(s@),
{
    if s.len() == 0 {
        return false;
    }
    let mut i: usize = 0;
    while i < s.len()
        invariant
            i <= s@.len(),
            forall|j: int| 0 <= j < i ==> is_attr_char(s@[j]),
        decreases s@.len() - i,
    {
        if !attr_char(s[i]) {
            return false;
        }
        i += 1;
    }
    true
}

/// Reads a range bound of the column `field`.
pub fn bound_chars(s: &[char], field: Field) -> (r: Result<usize, GffError>)
    ensures
        r == bound_column(s@, field),
{
    match parse_decimal(s, usize::MAX as u64) {
        Some(v) => Ok(v as usize),
        None => Err(GffError::ParseError(field)),
    }
}

/// Reads a score column.
pub fn score_chars(s: &[char]) -> (r: Option<Option<String>>)
    ensures
        r matches Some(Some(t)) ==> score_column(s@) == Some(Some(t@)),
        r matches Some(None) ==> score_column(s@) == Some(None::<Seq<char>>),
        r is None ==> score_column(s@) is None,
{
    if s.len() == 1 && s[0] == '.' {
        assert(s@ =~= seq!['.']);
        return Some(None);
    }
    assert(s@ != seq!['.']) by {
        if s@ == seq!['.'] {
            assert(s@.len() == 1 && s@[0] == '.');
        }
    }
    let t = string_of(s);
    if is_float_literal(t.as_str()) {
        Some(Some(t))
    } else {
        None
    }
}

fn single(s: &[char]) -> (r: Option<char>)
    ensures
        r matches Some(c) ==> s@ == seq![c],
        r is None ==> s@.len() != 1,
{
    if s.len() == 1 {
        assert(s@ =~= seq![s@[0]]);
        Some(s[0])
    } else {
        None
    }
}

/// Reads a strand column.
pub fn strand_chars(s: &[char]) -> (r: Option<Option<Strand>>)
    ensures
        r == strand_column(s@),
{
    match single(s) {
        Some(c) => {
            if c == '.' {
                Some(None)
            } else {
                match Strand::parse(c) {
                    Ok(st) => Some(Some(st)),
                    Err(_) => {
                        assert(s@ != seq!['+'] && s@ != seq!['-'] && s@ != seq!['?']) by {
                            if s@ == seq!['+'] || s@ == seq!['-'] || s@ == seq!['?'] {
                                assert(s@[0] == c);
                            }
                        }
                        None
                    },
                }
            }
        },
        None => {
            assert(s@ != seq!['.'] && s@ != seq!['+'] && s@ != seq!['-'] && s@ != seq!['?']) by {
                if s@ == seq!['.'] || s@ == seq!['+'] || s@ == seq!['-'] || s@ == seq!['?'] {
                    assert(s@.len() == 1);
                }
            }
            None
        },
    }
}

/// Reads a phase column.
pub fn phase_chars(s: &[char]) -> (r: Option<Option<u8>>)
    ensures
        r == phase_column(s@),
{
    match single(s) {
        Some(c) => {
            if c == '.' {
                Some(None)
            } else if c == '0' {
                Some(Some(0u8))
            } else if c == '1' {
                Some(Some(1u8))
            } else if c == '2' {
                Some(Some(2u8))
            } else {
                assert(s@ != seq!['.'] && s@ != seq!['0'] && s@ != seq!['1'] && s@ != seq!['2'])
                    by {
                    if s@ == seq!['.'] || s@ == seq!['0'] || s@ == seq!['1'] || s@ == seq!['2'] {
                        assert(s@[0] == c);
                    }
                }
                None
            }
        },
        None => {
            assert(s@ != seq!['.'] && s@ != seq!['0'] && s@ != seq!['1'] && s@ != seq!['2']) by {
                if s@ == seq!['.'] || s@ == seq!['0'] || s@ == seq!['1'] || s@ == seq!['2'] {
                    assert(s@.len() == 1);
                }
            }
            None
        },
    }
}

/// Splits an entry line into its nine columns and checks each against its
/// grammar, in column order.
pub fn entry(line: &[char]) -> (r: Result<RawEntry, GffError>)
    ensures
        res_view(r) == raw_entry(line@),
{
    let f = split_chars(line, '\t');
    let ghost fv = split_on(line@, '\t');
    assert(views(f@) == fv);
    assert forall|i: int| 0 <= i < f@.len() implies #[trigger] f@[i]@ == fv[i] by {
        assert(views(f@)[i] == f@[i]@);
    }
    let n = f.len();
    if !(n > 0 && seq_id_chars(f[0].as_slice())) {
        return Err(GffError::ParseError(Field::SeqId));
    }
    if !(n > 1 && free_text_chars(f[1].as_slice())) {
        return Err(GffError::ParseError(Field::Source));
    }
    if !(n > 2 && free_text_chars(f[2].as_slice())) {
        return Err(GffError::ParseError(Field::FeatureType));
    }
    if n <= 3 {
        return Err(GffError::ParseError(Field::Start));
    }
    let start = match bound_chars(f[3].as_slice(), Field::Start) {
        Ok(v) => v,
        Err(e) => {
            return Err(e);
        },
    };
    if n <= 4 {
        return Err(GffError::ParseError(Field::End));
    }
    let end = match bound_chars(f[4].as_slice(), Field::End) {
        Ok(v) => v,
        Err(e) => {
            return Err(e);
        },
    };
    if n <= 5 {
        return Err(GffError::ParseError(Field::Score));
    }
    let score = match score_chars(f[5].as_slice()) {
        Some(v) => v,
        None => {
            return Err(GffError::ParseError(Field::Score));
        },
    };
    if n <= 6 {
        return Err(GffError::ParseError(Field::Strand));
    }
    let strand = match strand_chars(f[6].as_slice()) {
        Some(v) => v,
        None => {
            return Err(GffError::ParseError(Field::Strand));
        },
    };
    if n <= 7 {
        return Err(GffError::ParseError(Field::Phase));
    }
    let phase = match phase_chars(f[7].as_slice()) {
        Some(v) => v,
        None => {
            return Err(GffError::ParseError(Field::Phase));
        },
    };
    if !(n > 8 && attributes_chars(f[8].as_slice())) {
        return Err(GffError::ParseError(Field::Attributes));
    }
    if n > 9 {
        return Err(GffError::ParseError(Field::Trailing));
    }
    let mut f = f;
    let attributes = f.pop().unwrap();
    let _phase_col = f.pop();
    let _strand_col = f.pop();
    let _score_col = f.pop();
    let _end_col = f.pop();
    let _start_col = f.pop();
    let feature_type = f.pop().unwrap();
    let source = f.pop().unwrap();
    let seq_id = f.pop().unwrap();
    Ok(
        RawEntry {
            seq_id,
            source,
            feature_type,
            start,
            end,
            score,
            strand,
            phase,
            attributes,
        },
    )
}

/// Checks a sequence id.
pub fn seq_id(src: &str) -> (r: bool)
    ensures
        r == valid_seq_id(src@),
{
    let v = chars_of(src);
    seq_id_chars(v.as_slice())
}

/// Reads a range bound: one or more decimal digits whose value fits a
/// `usize`.
pub fn range_bound(src: &str) -> (r: Result<usize, GffError>)
    ensures
        r == bound_column(src@, Field::Start),
        r is Ok <==> all_digits(src@) && decimal_value(src@) <= usize::MAX,
{
    let v = chars_of(src);
    bound_chars(v.as_slice(), Field::Start)
}

/// Reads a score: `.` gives `None`, a floating-point literal gives its text.
pub fn score(src: &str) -> (r: Result<Option<String>, GffError>)
    ensures
        r matches Ok(Some(t)) ==> t@ == src@ && float_literal(src@) && src@ != seq!['.'],
        r matches Ok(None) ==> src@ == seq!['.'],
        r is Err ==> r == Err::<Option<String>, GffError>(GffError::ParseError(Field::Score))
            && src@ != seq!['.'] && !float_literal(src@),
{
    let v = chars_of(src);
    match score_chars(v.as_slice()) {
        Some(s) => Ok(s),
        None => Err(GffError::ParseError(Field::Score)),
    }
}

/// Reads a strand column: `.` gives `None`.
pub fn strand(src: &str) -> (r: Result<Option<Strand>, GffError>)
    ensures
        r matches Ok(s) ==> strand_column(src@) == Some(s),
        r is Err ==> strand_column(src@) is None && r == Err::<Option<Strand>, GffError>(
            GffError::ParseError(Field::Strand),
        ),
{
    let v = chars_of(src);
    match strand_chars(v.as_slice()) {
        Some(s) => Ok(s),
        None => Err(GffError::ParseError(Field::Strand)),
    }
}

/// Reads a phase column: `.` gives `None`.
pub fn phase(src: &str) -> (r: Result<Option<u8>, GffError>)
    ensures
        r matches Ok(p) ==> phase_column(src@) == Some(p),
        r is Err ==> phase_column(src@) is None && r == Err::<Option<u8>, GffError>(
            GffError::ParseError(Field::Phase),
        ),
{
    let v = chars_of(src);
    match phase_chars(v.as_slice()) {
        Some(p) => Ok(p),
        None => Err(GffError::ParseError(Field::Phase)),
    }
}

} // verus!
