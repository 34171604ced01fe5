//! The attribute column: `tag=value` pairs separated by `;`.

use vstd::prelude::*;

use crate::gff::parsers::strand_column;
use crate::gff::{GffError, Strand, UnescapedString, res_view, unescape};
use crate::text::{
    chars_eq, chars_of, decimal_value, lemma_find_first_at, lemma_split_on_nonempty,
    lemma_split_on_prefix, decimal_within, find_char, parse_decimal, split_chars,
    split_on, split_once, string_of, sub_vec, views,
};
use crate::gff::parsers::strand_chars;

verus! {

/// An identifier, kept as written.
#[derive(Debug, Clone, PartialEq, Eq, Hash)]
pub struct Id(String);

impl View for Id {
    type V = Seq<char>;

    closed spec fn view(&self) -> Seq<char> {
        self.0@
    }
}

impl Id {
    /// An identifier with the text `src`.
    pub fn new(src: &str) -> (r: Id)
        ensures
            r@ == src@,
    {
        Id(String::from_str(src))
    }

    /// An identifier with the percent-decoded text of `src`.
    pub fn decode(src: &[char]) -> (r: Result<Id, GffError>)
        ensures
            res_view(r) == unescape(src@),
    {
        let u = UnescapedString::from_chars(src)?;
        Ok(Id(String::from_str(u.as_str())))
    }

    /// The text of the identifier.
    pub fn as_str(&self) -> (r: &str)
        ensures
            r@ == self@,
    {
        self.0.as_str()
    }
}

/// One operation of a `Gap` alignment.
#[derive(Debug, Clone, Copy, PartialEq, Eq, Hash, Structural)]
pub enum GapKind {
    Match,
    Insert,
    Delete,
    FwdFrameShift,
    RevFrameShift,
}

pub open spec fn gap_kind_of(c: char) -> Result<GapKind, GffError> {
    if c == 'M' {
        Ok(GapKind::Match)
    } else if c == 'I' {
        Ok(GapKind::Insert)
    } else if c == 'D' {
        Ok(GapKind::Delete)
    } else if c == 'F' {
        Ok(GapKind::FwdFrameShift)
    } else if c == 'R' {
        Ok(GapKind::RevFrameShift)
    } else {
        Err(GffError::InvalidGapKind)
    }
}

pub open spec fn gap_letter(k: GapKind) -> char {
    match k {
        GapKind::Match => 'M',
        GapKind::Insert => 'I',
        GapKind::Delete => 'D',
        GapKind::FwdFrameShift => 'F',
        GapKind::RevFrameShift => 'R',
    }
}

impl GapKind {
    /// Reads `M`, `I`, `D`, `F` or `R`.
    pub fn parse(src: char) -> (r: Result<GapKind, GffError>)
        ensures
            r == gap_kind_of(src),
    {
        match src {
            'M' => Ok(GapKind::Match),
            'I' => Ok(GapKind::Insert),
            'D' => Ok(GapKind::Delete),
            'F' => Ok(GapKind::FwdFrameShift),
            'R' => Ok(GapKind::RevFrameShift),
            _ => Err(GffError::InvalidGapKind),
        }
    }

    /// The letter that writes this operation.
    pub fn letter(self) -> (r: char)
        ensures
            r == gap_letter(self),
            gap_kind_of(r) == Ok::<GapKind, GffError>(self),
    {
        match self {
            GapKind::Match => 'M',
            GapKind::Insert => 'I',
            GapKind::Delete => 'D',
            GapKind::FwdFrameShift => 'F',
            GapKind::RevFrameShift => 'R',
        }
    }
}

/// The alignment target of a feature.
#[derive(Debug, Clone, PartialEq, Eq, Hash)]
pub struct TargetAttr {
    pub target_id: Id,
    pub start: usize,
    pub end: usize,
    pub strand: Option<Strand>,
}

pub struct TargetView {
    pub target_id: Seq<char>,
    pub start: usize,
    pub end: usize,
    pub strand: Option<Strand>,
}

impl View for TargetAttr {
    type V = TargetView;

    open spec fn view(&self) -> TargetView {
        TargetView {
            target_id: self.target_id@,
            start: self.start,
            end: self.end,
            strand: self.strand,
        }
    }
}

/// A `Target` value: an id, a start, an end and an optional strand,
/// separated by single spaces; the id is percent-decoded last.
pub open spec fn target_value(val: Seq<char>) -> Result<TargetView, GffError> {
    let p = split_on(val, ' ');
    if p.len() < 3 {
        Err(GffError::InvalidAttribute)
    } else if p.len() > 4 || p[0].len() == 0 {
        Err(GffError::MalformedTarget)
    } else if !decimal_within(p[1], usize::MAX as nat) || !decimal_within(p[2], usize::MAX as nat) {
        Err(GffError::FromStrErr)
    } else if p.len() == 4 && strand_column(p[3]) is None {
        Err(GffError::InvalidStrand)
    } else {
        match unescape(p[0]) {
            Err(e) => Err(e),
            Ok(id) => Ok(
            TargetView {
                target_id: id,
                start: decimal_value(p[1]) as usize,
                end: decimal_value(p[2]) as usize,
                strand: if p.len() == 4 {
                    strand_column(p[3])->0
                } else {
                    None
                },
            },
        ),
        }
    }
}

impl TargetAttr {
    /// Reads a `Target` value.
    pub fn parse(src: &[char]) -> (r: Result<TargetAttr, GffError>)
        ensures
            res_view(r) == target_value(src@),
    {
        let p = split_chars(src, ' ');
        let ghost pv = split_on(src@, ' ');
        assert forall|i: int| 0 <= i < p@.len() implies #[trigger] p@[i]@ == pv[i] by {
            assert(views(p@)[i] == p@[i]@);
        }
        let n = p.len();
        if n < 3 {
            return Err(GffError::InvalidAttribute);
        }
        if n > 4 || p[0].len() == 0 {
            return Err(GffError::MalformedTarget);
        }
        let start = match parse_decimal(p[1].as_slice(), usize::MAX as u64) {
            Some(v) => v as usize,
            None => {
                return Err(GffError::FromStrErr);
            },
        };
        let end = match parse_decimal(p[2].as_slice(), usize::MAX as u64) {
            Some(v) => v as usize,
            None => {
                return Err(GffError::FromStrErr);
            },
        };
        let strand = if n == 4 {
            match strand_chars(p[3].as_slice()) {
                Some(s) => s,
                None => {
                    return Err(GffError::InvalidStrand);
                },
            }
        } else {
            None
        };
        let target_id = Id::decode(p[0].as_slice())?;
        Ok(TargetAttr { target_id, start, end, strand })
    }
}

/// One `Gap` operation: its letter followed by a length in decimal digits.
pub open spec fn gap_op(tok: Seq<char>) -> Result<(GapKind, usize), GffError> {
    if tok.len() == 0 {
        Err(GffError::InvalidAttribute)
    } else {
        match gap_kind_of(tok[0]) {
            Err(e) => Err(e),
            Ok(k) => {
                let len = tok.subrange(1, tok.len() as int);
                if decimal_within(len, usize::MAX as nat) {
                    Ok((k, decimal_value(len) as usize))
                } else {
                    Err(GffError::FromStrErr)
                }
            },
        }
    }
}

/// The first `n` operations of a `Gap` value, or the first error among them.
pub open spec fn gap_ops(toks: Seq<Seq<char>>, n: nat) -> Result<Seq<(GapKind, usize)>, GffError>
    decreases n,
{
    if n == 0 {
        Ok(Seq::empty())
    } else {
        match gap_ops(toks, (n - 1) as nat) {
            Err(e) => Err(e),
            Ok(ops) => match gap_op(toks[n - 1]) {
                Err(e) => Err(e),
                Ok(op) => Ok(ops.push(op)),
            },
        }
    }
}

/// A `Gap` value: operations separated by single spaces.
pub open spec fn gap_value(val: Seq<char>) -> Result<Seq<(GapKind, usize)>, GffError> {
    let toks = split_on(val, ' ');
    gap_ops(toks, toks.len())
}

fn parse_gap_op(tok: &[char]) -> (r: Result<(GapKind, usize), GffError>)
    ensures
        r == gap_op(tok@),
{
    if tok.len() == 0 {
        return Err(GffError::InvalidAttribute);
    }
    let kind = match GapKind::parse(tok[0]) {
        Ok(k) => k,
        Err(e) => {
            return Err(e);
        },
    };
    let digits = sub_vec(tok, 1, tok.len());
    match parse_decimal(digits.as_slice(), usize::MAX as u64) {
        Some(v) => Ok((kind, v as usize)),
        None => Err(GffError::FromStrErr),
    }
}

fn parse_gap(val: &[char]) -> (r: Result<Vec<(GapKind, usize)>, GffError>)
    ensures
        match r {
            Ok(v) => gap_value(val@) == Ok::<Seq<(GapKind, usize)>, GffError>(v@),
            Err(e) => gap_value(val@) == Err::<Seq<(GapKind, usize)>, GffError>(e),
        },
{
    let toks = split_chars(val, ' ');
    let ghost tv = split_on(val@, ' ');
    assert forall|i: int| 0 <= i < toks@.len() implies #[trigger] toks@[i]@ == tv[i] by {
        assert(views(toks@)[i] == toks@[i]@);
    }
    let mut ops: Vec<(GapKind, usize)> = Vec::new();
    let mut i: usize = 0;
    while i < toks.len()
        invariant
            tv == split_on(val@, ' '),
            tv.len() == toks@.len(),
            forall|j: int| 0 <= j < toks@.len() ==> #[trigger] toks@[j]@ == tv[j],
            i <= toks@.len(),
            gap_ops(tv, i as nat) == Ok::<Seq<(GapKind, usize)>, GffError>(ops@),
        decreases toks@.len() - i,
    {
        match parse_gap_op(toks[i].as_slice()) {
            Ok(op) => {
                ops.push(op);
            },
            Err(e) => {
                assert(gap_ops(tv, i as nat + 1) == Err::<Seq<(GapKind, usize)>, GffError>(e));
                proof {
                    lemma_gap_ops_err(tv, i as nat + 1, tv.len());
                }
                return Err(e);
            },
        }
        i += 1;
    }
    Ok(ops)
}

proof fn lemma_gap_ops_err(toks: Seq<Seq<char>>, k: nat, n: nat)
    requires
        k <= n,
        gap_ops(toks, k) is Err,
    ensures
        gap_ops(toks, n) == gap_ops(toks, k),
    decreases n - k,
{
    if k < n {
        lemma_gap_ops_err(toks, k, (n - 1) as nat);
    }
}

/// The first `n` pieces percent-decoded, or the first error among them.
pub open spec fn decode_all(p: Seq<Seq<char>>, n: nat) -> Result<Seq<Seq<char>>, GffError>
    decreases n,
{
    if n == 0 {
        Ok(Seq::empty())
    } else {
        match decode_all(p, (n - 1) as nat) {
            Err(e) => Err(e),
            Ok(q) => match unescape(p[n - 1]) {
                Err(e) => Err(e),
                Ok(v) => Ok(q.push(v)),
            },
        }
    }
}

/// Every piece is non-empty.
pub open spec fn all_nonempty(p: Seq<Seq<char>>) -> bool {
    forall|i: int| 0 <= i < p.len() ==> p[i].len() > 0
}

/// A `Parent` value: one or more non-empty ids separated by `,`, each
/// percent-decoded.
pub open spec fn parent_value(val: Seq<char>) -> Result<Seq<Seq<char>>, GffError> {
    let p = split_on(val, ',');
    if all_nonempty(p) {
        decode_all(p, p.len())
    } else {
        Err(GffError::InvalidAttribute)
    }
}

pub open spec fn id_views(v: Seq<Id>) -> Seq<Seq<char>> {
    v.map_values(|i: Id| i@)
}

proof fn lemma_decode_all_err(p: Seq<Seq<char>>, k: nat, n: nat)
    requires
        k <= n,
        decode_all(p, k) is Err,
    ensures
        decode_all(p, n) == decode_all(p, k),
    decreases n - k,
{
    if k < n {
        lemma_decode_all_err(p, k, (n - 1) as nat);
    }
}

fn parse_parent(val: &[char]) -> (r: Result<Vec<Id>, GffError>)
    ensures
        match r {
            Ok(v) => parent_value(val@) == Ok::<Seq<Seq<char>>, GffError>(id_views(v@)),
            Err(e) => parent_value(val@) == Err::<Seq<Seq<char>>, GffError>(e),
        },
{
    let p = split_chars(val, ',');
    let ghost pv = split_on(val@, ',');
    assert forall|i: int| 0 <= i < p@.len() implies #[trigger] p@[i]@ == pv[i] by {
        assert(views(p@)[i] == p@[i]@);
    }
    let mut i: usize = 0;
    while i < p.len()
        invariant
            pv == split_on(val@, ','),
            pv.len() == p@.len(),
            forall|j: int| 0 <= j < p@.len() ==> #[trigger] p@[j]@ == pv[j],
            i <= p@.len(),
            forall|j: int| 0 <= j < i ==> pv[j].len() > 0,
        decreases p@.len() - i,
    {
        if p[i].len() == 0 {
            assert(pv[i as int].len() == 0);
            return Err(GffError::InvalidAttribute);
        }
        i += 1;
    }
    let mut ids: Vec<Id> = Vec::new();
    let mut i: usize = 0;
    assert(id_views(ids@) =~= Seq::<Seq<char>>::empty());
    while i < p.len()
        invariant
            pv == split_on(val@, ','),
            all_nonempty(pv),
            pv.len() == p@.len(),
            forall|j: int| 0 <= j < p@.len() ==> #[trigger] p@[j]@ == pv[j],
            i <= p@.len(),
            decode_all(pv, i as nat) == Ok::<Seq<Seq<char>>, GffError>(id_views(ids@)),
        decreases p@.len() - i,
    {
        match Id::decode(p[i].as_slice()) {
            Ok(id) => {
                let ghost before = ids@;
                ids.push(id);
                assert(id_views(ids@) =~= id_views(before).push(id@));
            },
            Err(e) => {
                assert(decode_all(pv, i as nat + 1) == Err::<Seq<Seq<char>>, GffError>(e));
                proof {
                    lemma_decode_all_err(pv, i as nat + 1, pv.len());
                }
                return Err(e);
            },
        }
        i += 1;
    }
    Ok(ids)
}

/// The well-known attributes of an entry, and the others in order.
#[derive(Debug, Default, Clone, PartialEq, Eq, Hash)]
pub struct AttributeSet {
    pub id: Option<Id>,
    pub name: Option<UnescapedString>,
    pub alias: Option<UnescapedString>,
    pub parent: Option<Vec<Id>>,
    pub target: Option<TargetAttr>,
    pub gap: Option<Vec<(GapKind, usize)>>,
    pub derives_from: Option<Id>,
    pub note: Option<UnescapedString>,
    pub dbx_ref: Option<UnescapedString>,
    pub ontology_term: Option<UnescapedString>,
    pub is_circular: Option<bool>,
    pub other: Option<Vec<(String, UnescapedString)>>,
}

pub struct AttrView {
    pub id: Option<Seq<char>>,
    pub name: Option<Seq<char>>,
    pub alias: Option<Seq<char>>,
    pub parent: Option<Seq<Seq<char>>>,
    pub target: Option<TargetView>,
    pub gap: Option<Seq<(GapKind, usize)>>,
    pub derives_from: Option<Seq<char>>,
    pub note: Option<Seq<char>>,
    pub dbx_ref: Option<Seq<char>>,
    pub ontology_term: Option<Seq<char>>,
    pub is_circular: Option<bool>,
    pub other: Option<Seq<(Seq<char>, Seq<char>)>>,
}

pub open spec fn opt_view<T: View>(o: Option<T>) -> Option<T::V> {
    match o {
        Some(t) => Some(t@),
        None => None,
    }
}

pub open spec fn other_views(v: Seq<(String, UnescapedString)>) -> Seq<(Seq<char>, Seq<char>)> {
    v.map_values(|p: (String, UnescapedString)| (p.0@, p.1@))
}

impl View for AttributeSet {
    type V = AttrView;

    open spec fn view(&self) -> AttrView {
        AttrView {
            id: opt_view(self.id),
            name: opt_view(self.name),
            alias: opt_view(self.alias),
            parent: match self.parent {
                Some(v) => Some(id_views(v@)),
                None => None,
            },
            target: opt_view(self.target),
            gap: match self.gap {
                Some(v) => Some(v@),
                None => None,
            },
            derives_from: opt_view(self.derives_from),
            note: opt_view(self.note),
            dbx_ref: opt_view(self.dbx_ref),
            ontology_term: opt_view(self.ontology_term),
            is_circular: self.is_circular,
            other: match self.other {
                Some(v) => Some(other_views(v@)),
                None => None,
            },
        }
    }
}

pub open spec fn empty_attrs() -> AttrView {
    AttrView {
        id: None,
        name: None,
        alias: None,
        parent: None,
        target: None,
        gap: None,
        derives_from: None,
        note: None,
        dbx_ref: None,
        ontology_term: None,
        is_circular: None,
        other: None,
    }
}

/// One of the tags with a meaning of its own.
pub open spec fn known_tag(t: Seq<char>) -> bool {
    t == "ID"@ || t == "Name"@ || t == "Alias"@ || t == "Parent"@ || t == "Target"@ || t
        == "Gap"@ || t == "Derives_from"@ || t == "Note"@ || t == "Dbxref"@ || t
        == "Ontology_term"@ || t == "Is_circular"@
}

pub open spec fn is_upper(c: char) -> bool {
    'A' <= c <= 'Z'
}

/// `o` with one more pair at its end.
pub open spec fn push_other(
    o: Option<Seq<(Seq<char>, Seq<char>)>>,
    p: (Seq<char>, Seq<char>),
) -> Option<Seq<(Seq<char>, Seq<char>)>> {
    match o {
        Some(s) => Some(s.push(p)),
        None => Some(seq![p]),
    }
}

/// The attributes `a` after the pair `tag=val`; every value is
/// percent-decoded. A repeated `ID` is refused;
/// any other repeated tag keeps its last value, and unknown tags keep all.
pub open spec fn apply_pair(a: AttrView, tag: Seq<char>, val: Seq<char>) -> Result<AttrView, GffError> {
    if tag == "ID"@ {
        if a.id is Some {
            Err(GffError::DuplicateId)
        } else {
            match unescape(val) {
                Ok(v) => Ok(AttrView { id: Some(v), ..a }),
                Err(e) => Err(e),
            }
        }
    } else if tag == "Name"@ {
        match unescape(val) {
            Ok(v) => Ok(AttrView { name: Some(v), ..a }),
            Err(e) => Err(e),
        }
    } else if tag == "Alias"@ {
        match unescape(val) {
            Ok(v) => Ok(AttrView { alias: Some(v), ..a }),
            Err(e) => Err(e),
        }
    } else if tag == "Parent"@ {
        match parent_value(val) {
            Ok(v) => Ok(AttrView { parent: Some(v), ..a }),
            Err(e) => Err(e),
        }
    } else if tag == "Target"@ {
        match target_value(val) {
            Ok(v) => Ok(AttrView { target: Some(v), ..a }),
            Err(e) => Err(e),
        }
    } else if tag == "Gap"@ {
        match gap_value(val) {
            Ok(v) => Ok(AttrView { gap: Some(v), ..a }),
            Err(e) => Err(e),
        }
    } else if tag == "Derives_from"@ {
        match unescape(val) {
            Ok(v) => Ok(AttrView { derives_from: Some(v), ..a }),
            Err(e) => Err(e),
        }
    } else if tag == "Note"@ {
        match unescape(val) {
            Ok(v) => Ok(AttrView { note: Some(v), ..a }),
            Err(e) => Err(e),
        }
    } else if tag == "Dbxref"@ {
        match unescape(val) {
            Ok(v) => Ok(AttrView { dbx_ref: Some(v), ..a }),
            Err(e) => Err(e),
        }
    } else if tag == "Ontology_term"@ {
        match unescape(val) {
            Ok(v) => Ok(AttrView { ontology_term: Some(v), ..a }),
            Err(e) => Err(e),
        }
    } else if tag == "Is_circular"@ {
        if val == "true"@ {
            Ok(AttrView { is_circular: Some(true), ..a })
        } else if val == "false"@ {
            Ok(AttrView { is_circular: Some(false), ..a })
        } else {
            Err(GffError::IsCircularNotBool)
        }
    } else if tag.len() == 0 {
        Err(GffError::InvalidAttribute)
    } else if is_upper(tag[0]) {
        Err(GffError::ReservedAttribute)
    } else {
        match unescape(val) {
            Ok(v) => Ok(AttrView { other: push_other(a.other, (tag, v)), ..a }),
            Err(e) => Err(e),
        }
    }
}

/// The attributes `a` after one `;`-separated chunk, which must hold `=`.
pub open spec fn apply_chunk(a: AttrView, chunk: Seq<char>) -> Result<AttrView, GffError> {
    match split_once(chunk, '=') {
        None => Err(GffError::InvalidAttribute),
        Some((tag, val)) => apply_pair(a, tag, val),
    }
}

/// The attributes after the first `n` chunks, or the first error among them.
pub open spec fn fold_chunks(chunks: Seq<Seq<char>>, n: nat) -> Result<AttrView, GffError>
    decreases n,
{
    if n == 0 {
        Ok(empty_attrs())
    } else {
        match fold_chunks(chunks, (n - 1) as nat) {
            Err(e) => Err(e),
            Ok(a) => apply_chunk(a, chunks[n - 1]),
        }
    }
}

/// The attribute column: chunks separated by `;`, applied in order.
pub open spec fn parse_attributes(src: Seq<char>) -> Result<AttrView, GffError> {
    let chunks = split_on(src, ';');
    fold_chunks(chunks, chunks.len())
}

proof fn lemma_fold_err(chunks: Seq<Seq<char>>, k: nat, n: nat)
    requires
        k <= n,
        fold_chunks(chunks, k) is Err,
    ensures
        fold_chunks(chunks, n) == fold_chunks(chunks, k),
    decreases n - k,
{
    if k < n {
        lemma_fold_err(chunks, k, (n - 1) as nat);
    }
}

/// An unknown tag that starts with an upper-case letter is refused as
/// reserved, whatever value follows it.
pub proof fn reserved_tag_rejected(t: Seq<char>, v: Seq<char>)
    requires
        t.len() > 0,
        is_upper(t[0]),
        !known_tag(t),
        forall|i: int| 0 <= i < t.len() ==> t[i] != ';' && t[i] != '=',
    ensures
        parse_attributes(t + seq!['='] + v) == Err::<AttrView, GffError>(GffError::ReservedAttribute),
{
    let s = t + seq!['='] + v;
    let p = t + seq!['='];
    assert(s.subrange(0, p.len() as int) =~= p);
    lemma_split_on_prefix(s, p, ';');
    lemma_split_on_nonempty(s, ';');
    let chunks = split_on(s, ';');
    let q = chunks[0];
    assert(q[t.len() as int] == p[t.len() as int]);
    assert forall|j: int| 0 <= j < t.len() implies q[j] != '=' by {
        assert(q[j] == p[j]);
    }
    lemma_find_first_at(q, '=', t.len() as int);
    assert(q.subrange(0, t.len() as int) =~= t) by {
        assert forall|j: int| 0 <= j < t.len() implies q[j] == t[j] by {
            assert(q[j] == p[j]);
        }
    }
    let rest = q.subrange(t.len() as int + 1, q.len() as int);
    assert(split_once(q, '=') == Some((t, rest)));
    assert(apply_pair(empty_attrs(), t, rest) == Err::<AttrView, GffError>(GffError::ReservedAttribute));
    assert(apply_chunk(empty_attrs(), q) == Err::<AttrView, GffError>(GffError::ReservedAttribute));
    assert(fold_chunks(chunks, 0) == Ok::<AttrView, GffError>(empty_attrs()));
    assert(fold_chunks(chunks, 1) == Err::<AttrView, GffError>(GffError::ReservedAttribute));
    lemma_fold_err(chunks, 1, chunks.len());
}

fn is_tag(t: &[char], lit: &str) -> (r: bool)
    ensures
        r == (t@ == lit@),
{
    let l = chars_of(lit);
    chars_eq(t, l.as_slice())
}

impl AttributeSet {
    /// No attribute at all.
    pub fn empty() -> (r: AttributeSet)
        ensures
            r@ == empty_attrs(),
    {
        AttributeSet {
            id: None,
            name: None,
            alias: None,
            parent: None,
            target: None,
            gap: None,
            derives_from: None,
            note: None,
            dbx_ref: None,
            ontology_term: None,
            is_circular: None,
            other: None,
        }
    }

    fn apply_pair(self, tag: &[char], val: &[char]) -> (r: Result<AttributeSet, GffError>)
        ensures
            res_view(r) == apply_pair(self@, tag@, val@),
    {
        let mut a = self;
        if is_tag(tag, "ID") {
            if a.id.is_some() {
                return Err(GffError::DuplicateId);
            }
            a.id = Some(Id::decode(val)?);
        } else if is_tag(tag, "Name") {
            a.name = Some(UnescapedString::from_chars(val)?);
        } else if is_tag(tag, "Alias") {
            a.alias = Some(UnescapedString::from_chars(val)?);
        } else if is_tag(tag, "Parent") {
            a.parent = Some(parse_parent(val)?);
        } else if is_tag(tag, "Target") {
            a.target = Some(TargetAttr::parse(val)?);
        } else if is_tag(tag, "Gap") {
            a.gap = Some(parse_gap(val)?);
        } else if is_tag(tag, "Derives_from") {
            a.derives_from = Some(Id::decode(val)?);
        } else if is_tag(tag, "Note") {
            a.note = Some(UnescapedString::from_chars(val)?);
        } else if is_tag(tag, "Dbxref") {
            a.dbx_ref = Some(UnescapedString::from_chars(val)?);
        } else if is_tag(tag, "Ontology_term") {
            a.ontology_term = Some(UnescapedString::from_chars(val)?);
        } else if is_tag(tag, "Is_circular") {
            if is_tag(val, "true") {
                a.is_circular = Some(true);
            } else if is_tag(val, "false") {
                a.is_circular = Some(false);
            } else {
                return Err(GffError::IsCircularNotBool);
            }
        } else if tag.len() == 0 {
            return Err(GffError::InvalidAttribute);
        } else if 'A' <= tag[0] && tag[0] <= 'Z' {
            return Err(GffError::ReservedAttribute);
        } else {
            let v = UnescapedString::from_chars(val)?;
            let t = string_of(tag);
            let ghost p = (t@, v@);
            let ghost prev = a@.other;
            let mut o: Vec<(String, UnescapedString)> = match a.other {
                Some(o) => o,
                None => Vec::new(),
            };
            let ghost ov = other_views(o@);
            o.push((t, v));
            assert(other_views(o@) =~= ov.push(p));
            assert(Seq::<(Seq<char>, Seq<char>)>::empty().push(p) =~= seq![p]);
            assert(prev is None ==> ov =~= Seq::<(Seq<char>, Seq<char>)>::empty());
            a.other = Some(o);
        }
        Ok(a)
    }

    fn apply_chunk(self, chunk: &[char]) -> (r: Result<AttributeSet, GffError>)
        ensures
            res_view(r) == apply_chunk(self@, chunk@),
    {
        match find_char(chunk, '=') {
            None => Err(GffError::InvalidAttribute),
            Some(i) => {
                assert(i < chunk@.len());
                let tag = sub_vec(chunk, 0, i);
                let n = chunk.len();
                let val = sub_vec(chunk, i + 1, n);
                self.apply_pair(tag.as_slice(), val.as_slice())
            },
        }
    }

    /// Reads an attribute column given as characters.
    pub fn parse_chars(src: &[char]) -> (r: Result<AttributeSet, GffError>)
        ensures
            res_view(r) == parse_attributes(src@),
    {
        let chunks = split_chars(src, ';');
        let ghost cv = split_on(src@, ';');
        assert forall|i: int| 0 <= i < chunks@.len() implies #[trigger] chunks@[i]@ == cv[i] by {
            assert(views(chunks@)[i] == chunks@[i]@);
        }
        let mut acc = AttributeSet::empty();
        let mut i: usize = 0;
        while i < chunks.len()
            invariant
                cv == split_on(src@, ';'),
                cv.len() == chunks@.len(),
                forall|j: int| 0 <= j < chunks@.len() ==> #[trigger] chunks@[j]@ == cv[j],
                i <= chunks@.len(),
                fold_chunks(cv, i as nat) == Ok::<AttrView, GffError>(acc@),
            decreases chunks@.len() - i,
        {
            match acc.apply_chunk(chunks[i].as_slice()) {
                Ok(a) => {
                    acc = a;
                },
                Err(e) => {
                    assert(fold_chunks(cv, i as nat + 1) == Err::<AttrView, GffError>(e));
                    proof {
                        lemma_fold_err(cv, i as nat + 1, cv.len());
                    }
                    return Err(e);
                },
            }
            i += 1;
        }
        Ok(acc)
    }

    /// Reads an attribute column: `tag=value` chunks separated by `;`.
    pub fn parse(src: &str) -> (r: Result<AttributeSet, GffError>)
        ensures
            res_view(r) == parse_attributes(src@),
    {
        let v = chars_of(src);
        AttributeSet::parse_chars(v.as_slice())
    }
}

} // verus!
