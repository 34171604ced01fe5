//! Writing entries back as lines, and the law that reading a written entry
//! gives it back.

use vstd::prelude::*;

use crate::gff::attr::{
    AttributeSet, AttrView, Id, decode_all, id_views, other_views, TargetAttr, GapKind, TargetView, apply_chunk, apply_pair, empty_attrs, fold_chunks, gap_kind_of,
    gap_letter, gap_op, gap_ops, gap_value, is_upper, parent_value, parse_attributes, push_other,
    target_value,
};
use crate::gff::parsers::{is_attr_char, strand_column, valid_attributes};
use crate::gff::{
    Entry, EntryView, GffError, Strand, UnescapedString, entry_spec, unescape,
    unescape_is_identity_without_percent,
};
use crate::gff::parsers::{
    float_literal, is_seq_id_char, phase_column, score_column, strand_column as strand_col,
    valid_free_text, valid_seq_id,
};
use crate::text::{
    decimal_within, digits_of, is_digit, join, lemma_digits_of, lemma_join_chars,
    lemma_split_join,
    lemma_split_once_at, split_on, chars_of, decimal_text, string_of, views,
};

verus! {

/// The attributes `a` after the chunks `c`, in order.
pub open spec fn fold_from(a: AttrView, c: Seq<Seq<char>>) -> Result<AttrView, GffError>
    decreases c.len(),
{
    if c.len() == 0 {
        Ok(a)
    } else {
        match fold_from(a, c.drop_last()) {
            Ok(b) => apply_chunk(b, c.last()),
            Err(e) => Err(e),
        }
    }
}

proof fn lemma_fold_chunks_from(c: Seq<Seq<char>>, n: nat)
    requires
        n <= c.len(),
    ensures
        fold_chunks(c, n) == fold_from(empty_attrs(), c.take(n as int)),
    decreases n,
{
    if n > 0 {
        lemma_fold_chunks_from(c, (n - 1) as nat);
        assert(c.take(n as int).drop_last() =~= c.take(n - 1));
    } else {
        assert(c.take(0) =~= Seq::<Seq<char>>::empty());
    }
}

proof fn lemma_fold_concat(a: AttrView, c1: Seq<Seq<char>>, c2: Seq<Seq<char>>)
    ensures
        fold_from(a, c1 + c2) == match fold_from(a, c1) {
            Ok(b) => fold_from(b, c2),
            Err(e) => Err(e),
        },
    decreases c2.len(),
{
    if c2.len() == 0 {
        assert(c1 + c2 =~= c1);
    } else {
        lemma_fold_concat(a, c1, c2.drop_last());
        assert((c1 + c2).drop_last() =~= c1 + c2.drop_last());
        assert((c1 + c2).last() == c2.last());
        if fold_from(a, c1) is Err {
            let e = fold_from(a, c1)->Err_0;
            assert(fold_from(a, c1 + c2.drop_last()) == Err::<AttrView, GffError>(e));
        }
    }
}

/// Text that an attribute value holds as written: attribute characters
/// other than `;` and `%`.
pub open spec fn plain_value(s: Seq<char>) -> bool {
    forall|i: int| 0 <= i < s.len() ==> is_attr_char(s[i]) && s[i] != ';' && s[i] != '%'
}

/// A plain value that also holds no `c`.
pub open spec fn plain_without(s: Seq<char>, c: char) -> bool {
    s.len() > 0 && plain_value(s) && forall|i: int| 0 <= i < s.len() ==> s[i] != c
}

pub open spec fn strand_letter(s: Strand) -> char {
    match s {
        Strand::Positive => '+',
        Strand::Negative => '-',
        Strand::Unknown => '?',
    }
}

/// A `Target` value as written.
pub open spec fn target_text(t: TargetView) -> Seq<char> {
    let p = seq![t.target_id, digits_of(t.start as nat), digits_of(t.end as nat)];
    match t.strand {
        Some(s) => join(p.push(seq![strand_letter(s)]), ' '),
        None => join(p, ' '),
    }
}

/// One `Gap` operation as written.
pub open spec fn gap_op_text(op: (GapKind, usize)) -> Seq<char> {
    seq![gap_letter(op.0)] + digits_of(op.1 as nat)
}

/// A `Gap` value as written.
pub open spec fn gap_text(ops: Seq<(GapKind, usize)>) -> Seq<char> {
    join(ops.map_values(|op: (GapKind, usize)| gap_op_text(op)), ' ')
}

pub open spec fn bool_text(b: bool) -> Seq<char> {
    if b {
        "true"@
    } else {
        "false"@
    }
}

/// The chunk `tag=v` when the value is present.
pub open spec fn opt_chunk(tag: Seq<char>, v: Option<Seq<char>>) -> Seq<Seq<char>> {
    match v {
        Some(v) => seq![tag + seq!['='] + v],
        None => Seq::empty(),
    }
}

/// The chunk of the `k`-th well-known attribute, if present.
pub open spec fn known_chunk(a: AttrView, k: nat) -> Seq<Seq<char>> {
    if k == 0 {
        opt_chunk("ID"@, a.id)
    } else if k == 1 {
        opt_chunk("Name"@, a.name)
    } else if k == 2 {
        opt_chunk("Alias"@, a.alias)
    } else if k == 3 {
        opt_chunk(
            "Parent"@,
            match a.parent {
                Some(p) => Some(join(p, ',')),
                None => None,
            },
        )
    } else if k == 4 {
        opt_chunk(
            "Target"@,
            match a.target {
                Some(t) => Some(target_text(t)),
                None => None,
            },
        )
    } else if k == 5 {
        opt_chunk(
            "Gap"@,
            match a.gap {
                Some(g) => Some(gap_text(g)),
                None => None,
            },
        )
    } else if k == 6 {
        opt_chunk("Derives_from"@, a.derives_from)
    } else if k == 7 {
        opt_chunk("Note"@, a.note)
    } else if k == 8 {
        opt_chunk("Dbxref"@, a.dbx_ref)
    } else if k == 9 {
        opt_chunk("Ontology_term"@, a.ontology_term)
    } else {
        opt_chunk(
            "Is_circular"@,
            match a.is_circular {
                Some(b) => Some(bool_text(b)),
                None => None,
            },
        )
    }
}

/// The chunks of the first `k` well-known attributes.
pub open spec fn known_chunks(a: AttrView, k: nat) -> Seq<Seq<char>>
    decreases k,
{
    if k == 0 {
        Seq::empty()
    } else {
        known_chunks(a, (k - 1) as nat) + known_chunk(a, (k - 1) as nat)
    }
}

/// The chunks of the other attributes, in order.
pub open spec fn other_chunks(o: Seq<(Seq<char>, Seq<char>)>) -> Seq<Seq<char>> {
    o.map_values(|p: (Seq<char>, Seq<char>)| p.0 + seq!['='] + p.1)
}

/// All chunks of an attribute set, as written.
pub open spec fn attr_chunks(a: AttrView) -> Seq<Seq<char>> {
    known_chunks(a, 11) + match a.other {
        Some(o) => other_chunks(o),
        None => Seq::empty(),
    }
}

/// The attribute column as written.
pub open spec fn attrs_text(a: AttrView) -> Seq<char> {
    join(attr_chunks(a), ';')
}

/// The attributes `a` with only the first `k` well-known ones kept.
pub open spec fn stage(a: AttrView, k: nat) -> AttrView {
    AttrView {
        id: if k > 0 { a.id } else { None },
        name: if k > 1 { a.name } else { None },
        alias: if k > 2 { a.alias } else { None },
        parent: if k > 3 { a.parent } else { None },
        target: if k > 4 { a.target } else { None },
        gap: if k > 5 { a.gap } else { None },
        derives_from: if k > 6 { a.derives_from } else { None },
        note: if k > 7 { a.note } else { None },
        dbx_ref: if k > 8 { a.dbx_ref } else { None },
        ontology_term: if k > 9 { a.ontology_term } else { None },
        is_circular: if k > 10 { a.is_circular } else { None },
        other: None,
    }
}

/// An attribute set that its written form gives back: every value is plain,
/// lists are not empty, ids in lists hold no list separator, and other tags
/// are plain, hold no `=` and do not start with an upper-case letter.
pub open spec fn writable_attrs(a: AttrView) -> bool {
    &&& (a.id matches Some(v) ==> plain_value(v))
    &&& (a.name matches Some(v) ==> plain_value(v))
    &&& (a.alias matches Some(v) ==> plain_value(v))
    &&& (a.parent matches Some(p) ==> p.len() > 0 && forall|i: int|
        0 <= i < p.len() ==> plain_without(#[trigger] p[i], ','))
    &&& (a.target matches Some(t) ==> plain_without(t.target_id, ' '))
    &&& (a.gap matches Some(g) ==> g.len() > 0)
    &&& (a.derives_from matches Some(v) ==> plain_value(v))
    &&& (a.note matches Some(v) ==> plain_value(v))
    &&& (a.dbx_ref matches Some(v) ==> plain_value(v))
    &&& (a.ontology_term matches Some(v) ==> plain_value(v))
    &&& (a.other matches Some(o) ==> o.len() > 0 && forall|i: int|
        0 <= i < o.len() ==> plain_without((#[trigger] o[i]).0, '=') && !is_upper(o[i].0[0])
            && plain_value(o[i].1))
    &&& attr_chunks(a).len() > 0
}

proof fn lemma_plain(v: Seq<char>)
    requires
        plain_value(v),
    ensures
        unescape(v) == Ok::<Seq<char>, GffError>(v),
{
    unescape_is_identity_without_percent(v);
}

/// A chunk `tag=v` with a tag free of `=` is the pair `tag`, `v`.
proof fn lemma_chunk(b: AttrView, tag: Seq<char>, v: Seq<char>)
    requires
        forall|i: int| 0 <= i < tag.len() ==> tag[i] != '=',
    ensures
        fold_from(b, seq![tag + seq!['='] + v]) == apply_pair(b, tag, v),
{
    lemma_split_once_at(tag, '=', v);
    let c = seq![tag + seq!['='] + v];
    assert(c.drop_last() =~= Seq::<Seq<char>>::empty());
    assert(fold_from(b, c.drop_last()) == Ok::<AttrView, GffError>(b));
    assert(c.last() == tag + seq!['='] + v);
}

proof fn lemma_tags()
    ensures
        "ID"@ =~= seq!['I', 'D'],
        "Name"@ =~= seq!['N', 'a', 'm', 'e'],
        "Alias"@ =~= seq!['A', 'l', 'i', 'a', 's'],
        "Parent"@ =~= seq!['P', 'a', 'r', 'e', 'n', 't'],
        "Target"@ =~= seq!['T', 'a', 'r', 'g', 'e', 't'],
        "Gap"@ =~= seq!['G', 'a', 'p'],
        "Derives_from"@ =~= seq!['D', 'e', 'r', 'i', 'v', 'e', 's', '_', 'f', 'r', 'o', 'm'],
        "Note"@ =~= seq!['N', 'o', 't', 'e'],
        "Dbxref"@ =~= seq!['D', 'b', 'x', 'r', 'e', 'f'],
        "Ontology_term"@ =~= seq!['O', 'n', 't', 'o', 'l', 'o', 'g', 'y', '_', 't', 'e', 'r', 'm'],
        "Is_circular"@ =~= seq!['I', 's', '_', 'c', 'i', 'r', 'c', 'u', 'l', 'a', 'r'],
        "true"@ =~= seq!['t', 'r', 'u', 'e'],
        "false"@ =~= seq!['f', 'a', 'l', 's', 'e'],
{
    reveal_strlit("ID");
    reveal_strlit("Name");
    reveal_strlit("Alias");
    reveal_strlit("Parent");
    reveal_strlit("Target");
    reveal_strlit("Gap");
    reveal_strlit("Derives_from");
    reveal_strlit("Note");
    reveal_strlit("Dbxref");
    reveal_strlit("Ontology_term");
    reveal_strlit("Is_circular");
    reveal_strlit("true");
    reveal_strlit("false");
}

proof fn lemma_strand_letter(s: Strand)
    ensures
        strand_column(seq![strand_letter(s)]) == Some(Some(s)),
{
    let l = seq![strand_letter(s)];
    assert(l != seq!['.']) by {
        assert(l[0] != seq!['.'][0]);
    }
    match s {
        Strand::Positive => {
            assert(l =~= seq!['+']);
        },
        Strand::Negative => {
            assert(l =~= seq!['-']);
            assert(l != seq!['+']) by {
                assert(l[0] != seq!['+'][0]);
            }
        },
        Strand::Unknown => {
            assert(l =~= seq!['?']);
            assert(l != seq!['+']) by {
                assert(l[0] != seq!['+'][0]);
            }
            assert(l != seq!['-']) by {
                assert(l[0] != seq!['-'][0]);
            }
        },
    }
}

proof fn lemma_digit_piece(n: nat)
    ensures
        decimal_within(digits_of(n), n),
        forall|j: int| 0 <= j < digits_of(n).len() ==> is_digit(#[trigger] digits_of(n)[j]),
{
    lemma_digits_of(n);
}

proof fn lemma_target(t: TargetView)
    requires
        plain_without(t.target_id, ' '),
    ensures
        target_value(target_text(t)) == Ok::<TargetView, GffError>(t),
{
    let p = seq![t.target_id, digits_of(t.start as nat), digits_of(t.end as nat)];
    lemma_digit_piece(t.start as nat);
    lemma_digit_piece(t.end as nat);
    let q = match t.strand {
        Some(s) => p.push(seq![strand_letter(s)]),
        None => p,
    };
    assert forall|i: int, j: int| 0 <= i < q.len() && 0 <= j < q[i].len() implies q[i][j] != ' ' by {
        if i == 1 {
            assert(is_digit(digits_of(t.start as nat)[j]));
        } else if i == 2 {
            assert(is_digit(digits_of(t.end as nat)[j]));
        }
    }
    lemma_split_join(q, ' ');
    assert(split_on(target_text(t), ' ') == q);
    lemma_digits_of(t.start as nat);
    lemma_digits_of(t.end as nat);
    assert(q[0] == t.target_id && q[1] == digits_of(t.start as nat) && q[2] == digits_of(
        t.end as nat,
    ));
    assert(decimal_within(q[1], usize::MAX as nat) && decimal_within(q[2], usize::MAX as nat));
    lemma_plain(t.target_id);
    if let Some(s) = t.strand {
        lemma_strand_letter(s);
        assert(q.len() == 4 && q[3] == seq![strand_letter(s)]);
    } else {
        assert(q.len() == 3);
    }
}

proof fn lemma_gap_ops(g: Seq<(GapKind, usize)>, n: nat)
    requires
        n <= g.len(),
    ensures
        gap_ops(g.map_values(|op: (GapKind, usize)| gap_op_text(op)), n) == Ok::<
            Seq<(GapKind, usize)>,
            GffError,
        >(g.take(n as int)),
    decreases n,
{
    let toks = g.map_values(|op: (GapKind, usize)| gap_op_text(op));
    if n > 0 {
        lemma_gap_ops(g, (n - 1) as nat);
        let op = g[n - 1];
        let tok = toks[n - 1];
        assert(tok == gap_op_text(op));
        lemma_digits_of(op.1 as nat);
        assert(tok[0] == gap_letter(op.0));
        assert(gap_kind_of(gap_letter(op.0)) == Ok::<GapKind, GffError>(op.0));
        assert(tok.subrange(1, tok.len() as int) =~= digits_of(op.1 as nat));
        assert(gap_op(tok) == Ok::<(GapKind, usize), GffError>(op));
        assert(g.take(n - 1).push(op) =~= g.take(n as int));
    } else {
        assert(g.take(0) =~= Seq::<(GapKind, usize)>::empty());
    }
}

proof fn lemma_gap(g: Seq<(GapKind, usize)>)
    requires
        g.len() > 0,
    ensures
        gap_value(gap_text(g)) == Ok::<Seq<(GapKind, usize)>, GffError>(g),
{
    let toks = g.map_values(|op: (GapKind, usize)| gap_op_text(op));
    assert forall|i: int, j: int| 0 <= i < toks.len() && 0 <= j < toks[i].len() implies toks[i][j]
        != ' ' by {
        let op = g[i];
        assert(toks[i] == gap_op_text(op));
        lemma_digit_piece(op.1 as nat);
        if j > 0 {
            assert(toks[i][j] == digits_of(op.1 as nat)[j - 1]);
        }
    }
    lemma_split_join(toks, ' ');
    lemma_gap_ops(g, g.len());
    assert(g.take(g.len() as int) =~= g);
}

proof fn lemma_parent(p: Seq<Seq<char>>)
    requires
        p.len() > 0,
        forall|i: int| 0 <= i < p.len() ==> plain_without(#[trigger] p[i], ','),
    ensures
        parent_value(join(p, ',')) == Ok::<Seq<Seq<char>>, GffError>(p),
{
    assert forall|i: int, j: int| 0 <= i < p.len() && 0 <= j < p[i].len() implies p[i][j] != ',' by {
        assert(plain_without(p[i], ','));
    }
    lemma_split_join(p, ',');
    assert forall|i: int| 0 <= i < p.len() implies p[i].len() > 0 by {
        assert(plain_without(p[i], ','));
    }
    lemma_decode_plain(p, p.len());
    assert(p.take(p.len() as int) =~= p);
}

proof fn lemma_decode_plain(p: Seq<Seq<char>>, n: nat)
    requires
        n <= p.len(),
        forall|i: int| 0 <= i < p.len() ==> plain_without(#[trigger] p[i], ','),
    ensures
        decode_all(p, n) == Ok::<Seq<Seq<char>>, GffError>(p.take(n as int)),
    decreases n,
{
    if n > 0 {
        lemma_decode_plain(p, (n - 1) as nat);
        assert(plain_without(p[n - 1], ','));
        lemma_plain(p[n - 1]);
        assert(p.take(n - 1).push(p[n - 1]) =~= p.take(n as int));
    } else {
        assert(p.take(0) =~= Seq::<Seq<char>>::empty());
    }
}

proof fn lemma_stage_id(a: AttrView)
    requires
        writable_attrs(a),
    ensures
        fold_from(stage(a, 0), known_chunk(a, 0)) == Ok::<AttrView, GffError>(stage(a, 1)),
{
    lemma_tags();
    let b = stage(a, 0);
    if let Some(v) = a.id {
        lemma_chunk(b, "ID"@, v);
        lemma_plain(v);
    } else {
        assert(known_chunk(a, 0) =~= Seq::<Seq<char>>::empty());
        assert(fold_from(b, known_chunk(a, 0)) == Ok::<AttrView, GffError>(b));
    }
}

proof fn lemma_stage_name(a: AttrView)
    requires
        writable_attrs(a),
    ensures
        fold_from(stage(a, 1), known_chunk(a, 1)) == Ok::<AttrView, GffError>(stage(a, 2)),
{
    lemma_tags();
    let b = stage(a, 1);
    if let Some(v) = a.name {
        lemma_chunk(b, "Name"@, v);
        lemma_plain(v);
    } else {
        assert(known_chunk(a, 1) =~= Seq::<Seq<char>>::empty());
        assert(fold_from(b, known_chunk(a, 1)) == Ok::<AttrView, GffError>(b));
    }
}

proof fn lemma_stage_alias(a: AttrView)
    requires
        writable_attrs(a),
    ensures
        fold_from(stage(a, 2), known_chunk(a, 2)) == Ok::<AttrView, GffError>(stage(a, 3)),
{
    lemma_tags();
    let b = stage(a, 2);
    if let Some(v) = a.alias {
        lemma_chunk(b, "Alias"@, v);
        lemma_plain(v);
    } else {
        assert(known_chunk(a, 2) =~= Seq::<Seq<char>>::empty());
        assert(fold_from(b, known_chunk(a, 2)) == Ok::<AttrView, GffError>(b));
    }
}

proof fn lemma_stage_parent(a: AttrView)
    requires
        writable_attrs(a),
    ensures
        fold_from(stage(a, 3), known_chunk(a, 3)) == Ok::<AttrView, GffError>(stage(a, 4)),
{
    lemma_tags();
    let b = stage(a, 3);
    if let Some(v) = a.parent {
        lemma_chunk(b, "Parent"@, join(v, ','));
        lemma_parent(v);
    } else {
        assert(known_chunk(a, 3) =~= Seq::<Seq<char>>::empty());
        assert(fold_from(b, known_chunk(a, 3)) == Ok::<AttrView, GffError>(b));
    }
}

proof fn lemma_stage_target(a: AttrView)
    requires
        writable_attrs(a),
    ensures
        fold_from(stage(a, 4), known_chunk(a, 4)) == Ok::<AttrView, GffError>(stage(a, 5)),
{
    lemma_tags();
    assert("Target"@[0] != "Parent"@[0]);
    let b = stage(a, 4);
    if let Some(v) = a.target {
        lemma_chunk(b, "Target"@, target_text(v));
        lemma_target(v);
    } else {
        assert(known_chunk(a, 4) =~= Seq::<Seq<char>>::empty());
        assert(fold_from(b, known_chunk(a, 4)) == Ok::<AttrView, GffError>(b));
    }
}

proof fn lemma_stage_gap(a: AttrView)
    requires
        writable_attrs(a),
    ensures
        fold_from(stage(a, 5), known_chunk(a, 5)) == Ok::<AttrView, GffError>(stage(a, 6)),
{
    lemma_tags();
    let b = stage(a, 5);
    if let Some(v) = a.gap {
        lemma_chunk(b, "Gap"@, gap_text(v));
        lemma_gap(v);
    } else {
        assert(known_chunk(a, 5) =~= Seq::<Seq<char>>::empty());
        assert(fold_from(b, known_chunk(a, 5)) == Ok::<AttrView, GffError>(b));
    }
}

proof fn lemma_stage_derives_from(a: AttrView)
    requires
        writable_attrs(a),
    ensures
        fold_from(stage(a, 6), known_chunk(a, 6)) == Ok::<AttrView, GffError>(stage(a, 7)),
{
    lemma_tags();
    let b = stage(a, 6);
    if let Some(v) = a.derives_from {
        lemma_chunk(b, "Derives_from"@, v);
        lemma_plain(v);
    } else {
        assert(known_chunk(a, 6) =~= Seq::<Seq<char>>::empty());
        assert(fold_from(b, known_chunk(a, 6)) == Ok::<AttrView, GffError>(b));
    }
}

proof fn lemma_stage_note(a: AttrView)
    requires
        writable_attrs(a),
    ensures
        fold_from(stage(a, 7), known_chunk(a, 7)) == Ok::<AttrView, GffError>(stage(a, 8)),
{
    lemma_tags();
    assert("Note"@[1] != "Name"@[1]);
    let b = stage(a, 7);
    if let Some(v) = a.note {
        lemma_chunk(b, "Note"@, v);
        lemma_plain(v);
    } else {
        assert(known_chunk(a, 7) =~= Seq::<Seq<char>>::empty());
        assert(fold_from(b, known_chunk(a, 7)) == Ok::<AttrView, GffError>(b));
    }
}

proof fn lemma_stage_dbx_ref(a: AttrView)
    requires
        writable_attrs(a),
    ensures
        fold_from(stage(a, 8), known_chunk(a, 8)) == Ok::<AttrView, GffError>(stage(a, 9)),
{
    lemma_tags();
    assert("Dbxref"@[0] != "Parent"@[0]);
    assert("Dbxref"@[0] != "Target"@[0]);
    let b = stage(a, 8);
    if let Some(v) = a.dbx_ref {
        lemma_chunk(b, "Dbxref"@, v);
        lemma_plain(v);
    } else {
        assert(known_chunk(a, 8) =~= Seq::<Seq<char>>::empty());
        assert(fold_from(b, known_chunk(a, 8)) == Ok::<AttrView, GffError>(b));
    }
}

proof fn lemma_stage_ontology_term(a: AttrView)
    requires
        writable_attrs(a),
    ensures
        fold_from(stage(a, 9), known_chunk(a, 9)) == Ok::<AttrView, GffError>(stage(a, 10)),
{
    lemma_tags();
    let b = stage(a, 9);
    if let Some(v) = a.ontology_term {
        lemma_chunk(b, "Ontology_term"@, v);
        lemma_plain(v);
    } else {
        assert(known_chunk(a, 9) =~= Seq::<Seq<char>>::empty());
        assert(fold_from(b, known_chunk(a, 9)) == Ok::<AttrView, GffError>(b));
    }
}

proof fn lemma_stage_is_circular(a: AttrView)
    requires
        writable_attrs(a),
    ensures
        fold_from(stage(a, 10), known_chunk(a, 10)) == Ok::<AttrView, GffError>(stage(a, 11)),
{
    lemma_tags();
    assert("true"@.len() != "false"@.len());
    let b = stage(a, 10);
    if let Some(v) = a.is_circular {
        lemma_chunk(b, "Is_circular"@, bool_text(v));
    } else {
        assert(known_chunk(a, 10) =~= Seq::<Seq<char>>::empty());
        assert(fold_from(b, known_chunk(a, 10)) == Ok::<AttrView, GffError>(b));
    }
}

/// Applying the chunk of the `k`-th well-known attribute to the stage
/// before it gives the next stage.
proof fn lemma_stage(a: AttrView, k: nat)
    requires
        writable_attrs(a),
        k < 11,
    ensures
        fold_from(stage(a, k), known_chunk(a, k)) == Ok::<AttrView, GffError>(stage(a, k + 1)),
{
    if k == 0 {
        lemma_stage_id(a);
    } else if k == 1 {
        lemma_stage_name(a);
    } else if k == 2 {
        lemma_stage_alias(a);
    } else if k == 3 {
        lemma_stage_parent(a);
    } else if k == 4 {
        lemma_stage_target(a);
    } else if k == 5 {
        lemma_stage_gap(a);
    } else if k == 6 {
        lemma_stage_derives_from(a);
    } else if k == 7 {
        lemma_stage_note(a);
    } else if k == 8 {
        lemma_stage_dbx_ref(a);
    } else if k == 9 {
        lemma_stage_ontology_term(a);
    } else if k == 10 {
        lemma_stage_is_circular(a);
    }
}

proof fn lemma_known(a: AttrView, k: nat)
    requires
        writable_attrs(a),
        k <= 11,
    ensures
        fold_from(empty_attrs(), known_chunks(a, k)) == Ok::<AttrView, GffError>(stage(a, k)),
    decreases k,
{
    if k == 0 {
        assert(stage(a, 0) == empty_attrs());
    } else {
        lemma_known(a, (k - 1) as nat);
        lemma_fold_concat(empty_attrs(), known_chunks(a, (k - 1) as nat), known_chunk(a, (k - 1) as nat));
        lemma_stage(a, (k - 1) as nat);
    }
}

/// The stage after all well-known attributes, with the first `n` other
/// attributes of `o`.
pub open spec fn with_others(s: AttrView, o: Seq<(Seq<char>, Seq<char>)>, n: nat) -> AttrView {
    AttrView {
        other: if n == 0 {
            None
        } else {
            Some(o.take(n as int))
        },
        ..s
    }
}

proof fn lemma_others(s: AttrView, o: Seq<(Seq<char>, Seq<char>)>, n: nat)
    requires
        s.other is None,
        n <= o.len(),
        forall|i: int|
            0 <= i < o.len() ==> plain_without((#[trigger] o[i]).0, '=') && !is_upper(o[i].0[0])
                && plain_value(o[i].1),
    ensures
        fold_from(s, other_chunks(o.take(n as int))) == Ok::<AttrView, GffError>(with_others(s, o, n)),
    decreases n,
{
    if n == 0 {
        assert(other_chunks(o.take(0)) =~= Seq::<Seq<char>>::empty());
        assert(with_others(s, o, 0) == s);
    } else {
        lemma_others(s, o, (n - 1) as nat);
        let p = o[n - 1];
        let t = p.0;
        let v = p.1;
        assert(plain_without(t, '=') && !is_upper(t[0]) && plain_value(v));
        let c = other_chunks(o.take(n as int));
        assert(c.drop_last() =~= other_chunks(o.take(n - 1)));
        assert(c.last() == t + seq!['='] + v);
        let b = with_others(s, o, (n - 1) as nat);
        lemma_split_once_at(t, '=', v);
        lemma_plain(v);
        lemma_tags();
        assert(!(t == "ID"@ || t == "Name"@ || t == "Alias"@ || t == "Parent"@ || t == "Target"@
            || t == "Gap"@ || t == "Derives_from"@ || t == "Note"@ || t == "Dbxref"@ || t
            == "Ontology_term"@ || t == "Is_circular"@));
        assert(apply_pair(b, t, v) == Ok::<AttrView, GffError>(
            AttrView { other: push_other(b.other, (t, v)), ..b },
        ));
        if n == 1 {
            assert(o.take(1) =~= seq![p]);
        } else {
            assert(o.take(n - 1).push(p) =~= o.take(n as int));
        }
    }
}

/// A character that an attribute chunk may hold.
pub open spec fn chunk_char(c: char) -> bool {
    is_attr_char(c) && c != ';'
}

pub open spec fn chunk_safe(s: Seq<char>) -> bool {
    forall|i: int| 0 <= i < s.len() ==> chunk_char(#[trigger] s[i])
}

proof fn lemma_join_safe(p: Seq<Seq<char>>, sep: char)
    requires
        chunk_char(sep),
        forall|i: int| 0 <= i < p.len() ==> chunk_safe(#[trigger] p[i]),
    ensures
        chunk_safe(join(p, sep)),
{
    assert forall|k: int| 0 <= k < join(p, sep).len() implies chunk_char(#[trigger] join(p, sep)[k]) by {
        lemma_join_chars(p, sep, k);
        if join(p, sep)[k] != sep {
            let (i, j) = choose|i: int, j: int|
                0 <= i < p.len() && 0 <= j < p[i].len() && join(p, sep)[k] == #[trigger] p[i][j];
            assert(chunk_safe(p[i]));
        }
    }
}

proof fn lemma_digits_safe(n: nat)
    ensures
        chunk_safe(digits_of(n)),
{
    lemma_digits_of(n);
    assert forall|i: int| 0 <= i < digits_of(n).len() implies chunk_char(#[trigger] digits_of(n)[i]) by {
        assert(is_digit(digits_of(n)[i]));
    }
}

proof fn lemma_tag_chunk_safe(tag: Seq<char>, v: Seq<char>)
    requires
        chunk_safe(tag),
        chunk_safe(v),
    ensures
        chunk_safe(tag + seq!['='] + v),
{
    let c = tag + seq!['='] + v;
    assert forall|i: int| 0 <= i < c.len() implies chunk_char(#[trigger] c[i]) by {
        if i < tag.len() {
            assert(c[i] == tag[i]);
        } else if i > tag.len() {
            assert(c[i] == v[i - tag.len() - 1]);
        }
    }
}

proof fn lemma_known_chunk_safe(a: AttrView, k: nat)
    requires
        writable_attrs(a),
        k < 11,
    ensures
        forall|i: int| 0 <= i < known_chunk(a, k).len() ==> chunk_safe(#[trigger] known_chunk(a, k)[i]),
{
    lemma_tags();
    let c = known_chunk(a, k);
    if c.len() > 0 {
        let tag = if k == 0 {
            "ID"@
        } else if k == 1 {
            "Name"@
        } else if k == 2 {
            "Alias"@
        } else if k == 3 {
            "Parent"@
        } else if k == 4 {
            "Target"@
        } else if k == 5 {
            "Gap"@
        } else if k == 6 {
            "Derives_from"@
        } else if k == 7 {
            "Note"@
        } else if k == 8 {
            "Dbxref"@
        } else if k == 9 {
            "Ontology_term"@
        } else {
            "Is_circular"@
        };
        assert(chunk_safe(tag));
        let v = c[0].subrange(tag.len() as int + 1, c[0].len() as int);
        assert(c[0] =~= tag + seq!['='] + v);
        if k == 3 {
            let p = a.parent->0;
            assert forall|i: int| 0 <= i < p.len() implies chunk_safe(#[trigger] p[i]) by {
                assert(plain_without(p[i], ','));
            }
            lemma_join_safe(p, ',');
        } else if k == 4 {
            let t = a.target->0;
            let p = seq![t.target_id, digits_of(t.start as nat), digits_of(t.end as nat)];
            lemma_digits_safe(t.start as nat);
            lemma_digits_safe(t.end as nat);
            match t.strand {
                Some(s) => {
                    let q = p.push(seq![strand_letter(s)]);
                    assert forall|i: int| 0 <= i < q.len() implies chunk_safe(#[trigger] q[i]) by {
                        if i < 3 {
                            assert(q[i] == p[i]);
                        }
                    }
                    lemma_join_safe(q, ' ');
                },
                None => {
                    lemma_join_safe(p, ' ');
                },
            }
        } else if k == 5 {
            let g = a.gap->0;
            let toks = g.map_values(|op: (GapKind, usize)| gap_op_text(op));
            assert forall|i: int| 0 <= i < toks.len() implies chunk_safe(#[trigger] toks[i]) by {
                let op = g[i];
                lemma_digits_safe(op.1 as nat);
                let t = gap_op_text(op);
                assert forall|j: int| 0 <= j < t.len() implies chunk_char(#[trigger] t[j]) by {
                    if j > 0 {
                        assert(t[j] == digits_of(op.1 as nat)[j - 1]);
                    }
                }
            }
            lemma_join_safe(toks, ' ');
        }
        lemma_tag_chunk_safe(tag, v);
    }
}

proof fn lemma_known_chunks_safe(a: AttrView, k: nat)
    requires
        writable_attrs(a),
        k <= 11,
    ensures
        forall|i: int| 0 <= i < known_chunks(a, k).len() ==> chunk_safe(#[trigger] known_chunks(a, k)[i]),
    decreases k,
{
    if k > 0 {
        lemma_known_chunks_safe(a, (k - 1) as nat);
        lemma_known_chunk_safe(a, (k - 1) as nat);
        let c1 = known_chunks(a, (k - 1) as nat);
        let c2 = known_chunk(a, (k - 1) as nat);
        assert forall|i: int| 0 <= i < (c1 + c2).len() implies chunk_safe(#[trigger] (c1 + c2)[i]) by {
            if i < c1.len() {
                assert((c1 + c2)[i] == c1[i]);
            } else {
                assert((c1 + c2)[i] == c2[i - c1.len()]);
            }
        }
    }
}

proof fn lemma_attr_chunks_safe(a: AttrView)
    requires
        writable_attrs(a),
    ensures
        forall|i: int| 0 <= i < attr_chunks(a).len() ==> chunk_safe(#[trigger] attr_chunks(a)[i]),
{
    lemma_known_chunks_safe(a, 11);
    let c1 = known_chunks(a, 11);
    let c2 = match a.other {
        Some(o) => other_chunks(o),
        None => Seq::empty(),
    };
    assert forall|i: int| 0 <= i < c2.len() implies chunk_safe(#[trigger] c2[i]) by {
        let o = a.other->0;
        let p = o[i];
        assert(plain_without(p.0, '=') && plain_value(p.1));
        lemma_tag_chunk_safe(p.0, p.1);
        assert(c2[i] == p.0 + seq!['='] + p.1);
    }
    assert forall|i: int| 0 <= i < (c1 + c2).len() implies chunk_safe(#[trigger] (c1 + c2)[i]) by {
        if i < c1.len() {
            assert((c1 + c2)[i] == c1[i]);
        } else {
            assert((c1 + c2)[i] == c2[i - c1.len()]);
        }
    }
}

/// Writing an attribute set that needs no escaping and reading the text
/// back gives the same set; the text is a valid attribute column.
pub proof fn attrs_round_trip(a: AttrView)
    requires
        writable_attrs(a),
    ensures
        parse_attributes(attrs_text(a)) == Ok::<AttrView, GffError>(a),
        valid_attributes(attrs_text(a)),
{
    let chunks = attr_chunks(a);
    lemma_attr_chunks_safe(a);
    assert forall|i: int, j: int| 0 <= i < chunks.len() && 0 <= j < chunks[i].len() implies chunks[i][j]
        != ';' by {
        assert(chunk_safe(chunks[i]));
        assert(chunk_char(chunks[i][j]));
    }
    lemma_split_join(chunks, ';');
    lemma_fold_chunks_from(chunks, chunks.len());
    assert(chunks.take(chunks.len() as int) =~= chunks);
    let known = known_chunks(a, 11);
    let rest = match a.other {
        Some(o) => other_chunks(o),
        None => Seq::empty(),
    };
    lemma_fold_concat(empty_attrs(), known, rest);
    lemma_known(a, 11);
    let s = stage(a, 11);
    match a.other {
        Some(o) => {
            lemma_others(s, o, o.len());
            assert(o.take(o.len() as int) =~= o);
            assert(with_others(s, o, o.len()) == a);
        },
        None => {
            assert(rest =~= Seq::<Seq<char>>::empty());
            assert(s == a);
        },
    }
    let text = attrs_text(a);
    assert forall|k: int| 0 <= k < text.len() implies is_attr_char(#[trigger] text[k]) by {
        lemma_join_chars(chunks, ';', k);
        if text[k] != ';' {
            let (i, j) = choose|i: int, j: int|
                0 <= i < chunks.len() && 0 <= j < chunks[i].len() && text[k] == #[trigger] chunks[i][j];
            assert(chunk_safe(chunks[i]));
            assert(chunk_char(chunks[i][j]));
        }
    }
    assert(text.len() > 0) by {
        if chunks.len() == 1 {
            assert(chunks[0].len() > 0) by {
                lemma_tags();
            }
        }
    }
}

/// Joins the pieces with `sep` between each two.
pub fn join_chars(p: &Vec<Vec<char>>, sep: char) -> (r: Vec<char>)
    ensures
        r@ == join(views(p@), sep),
{
    let n = p.len();
    if n == 0 {
        return Vec::new();
    }
    let mut out: Vec<char> = Vec::new();
    let mut j: usize = 0;
    while j < p[0].len()
        invariant
            n == p@.len(),
            n > 0,
            j <= p@[0]@.len(),
            out@ == p@[0]@.subrange(0, j as int),
        decreases p@[0]@.len() - j,
    {
        out.push(p[0][j]);
        j += 1;
        assert(out@ =~= p@[0]@.subrange(0, j as int));
    }
    assert(p@[0]@.subrange(0, j as int) =~= p@[0]@);
    assert(views(p@).take(1) =~= seq![p@[0]@]);
    let mut i: usize = 1;
    while i < n
        invariant
            n == p@.len(),
            1 <= i <= n,
            out@ == join(views(p@).take(i as int), sep),
        decreases n - i,
    {
        let ghost before = out@;
        out.push(sep);
        let mut j: usize = 0;
        while j < p[i].len()
            invariant
                n == p@.len(),
                1 <= i < n,
                j <= p@[i as int]@.len(),
                out@ == before + seq![sep] + p@[i as int]@.subrange(0, j as int),
            decreases p@[i as int]@.len() - j,
        {
            out.push(p[i][j]);
            j += 1;
            assert(out@ =~= before + seq![sep] + p@[i as int]@.subrange(0, j as int));
        }
        assert(p@[i as int]@.subrange(0, j as int) =~= p@[i as int]@);
        let ghost q = views(p@).take(i + 1);
        assert(q.drop_last() =~= views(p@).take(i as int));
        assert(q.last() == p@[i as int]@);
        i += 1;
    }
    assert(views(p@).take(n as int) =~= views(p@));
    out
}

/// The chunk `tag=v`.
fn make_chunk(tag: &str, v: &[char]) -> (r: Vec<char>)
    ensures
        r@ == tag@ + seq!['='] + v@,
{
    let mut out = chars_of(tag);
    out.push('=');
    let mut j: usize = 0;
    let ghost before = out@;
    while j < v.len()
        invariant
            j <= v@.len(),
            out@ == before + v@.subrange(0, j as int),
        decreases v@.len() - j,
    {
        out.push(v[j]);
        j += 1;
        assert(out@ =~= before + v@.subrange(0, j as int));
    }
    assert(v@.subrange(0, j as int) =~= v@);
    out
}

pub open spec fn opt_views(o: Option<Vec<char>>) -> Seq<Seq<char>> {
    match o {
        Some(c) => seq![c@],
        None => Seq::empty(),
    }
}

fn text_chunk(tag: &str, v: &Option<UnescapedString>) -> (r: Option<Vec<char>>)
    ensures
        opt_views(r) == opt_chunk(
            tag@,
            match v {
                Some(u) => Some(u@),
                None => None,
            },
        ),
{
    match v {
        Some(u) => {
            let c = chars_of(u.as_str());
            Some(make_chunk(tag, c.as_slice()))
        },
        None => None,
    }
}

fn id_chunk(tag: &str, v: &Option<Id>) -> (r: Option<Vec<char>>)
    ensures
        opt_views(r) == opt_chunk(
            tag@,
            match v {
                Some(u) => Some(u@),
                None => None,
            },
        ),
{
    match v {
        Some(u) => {
            let c = chars_of(u.as_str());
            Some(make_chunk(tag, c.as_slice()))
        },
        None => None,
    }
}

fn strand_char(s: Strand) -> (r: char)
    ensures
        r == strand_letter(s),
{
    match s {
        Strand::Positive => '+',
        Strand::Negative => '-',
        Strand::Unknown => '?',
    }
}

fn parent_chars(p: &Vec<Id>) -> (r: Vec<char>)
    ensures
        r@ == join(id_views(p@), ','),
{
    let mut pieces: Vec<Vec<char>> = Vec::new();
    let mut i: usize = 0;
    while i < p.len()
        invariant
            i <= p@.len(),
            views(pieces@) == id_views(p@).take(i as int),
        decreases p@.len() - i,
    {
        let c = chars_of(p[i].as_str());
        let ghost before = views(pieces@);
        let ghost cv = c@;
        pieces.push(c);
        assert(views(pieces@) =~= before.push(cv));
        assert(id_views(p@).take(i + 1) =~= id_views(p@).take(i as int).push(p@[i as int]@));
        i += 1;
    }
    assert(id_views(p@).take(i as int) =~= id_views(p@));
    join_chars(&pieces, ',')
}

fn target_chars(t: &TargetAttr) -> (r: Vec<char>)
    ensures
        r@ == target_text(t@),
{
    let mut pieces: Vec<Vec<char>> = Vec::new();
    pieces.push(chars_of(t.target_id.as_str()));
    pieces.push(decimal_text(t.start));
    pieces.push(decimal_text(t.end));
    let ghost p = seq![t@.target_id, digits_of(t.start as nat), digits_of(t.end as nat)];
    match t.strand {
        Some(s) => {
            let mut l: Vec<char> = Vec::new();
            l.push(strand_char(s));
            assert(l@ =~= seq![strand_letter(s)]);
            pieces.push(l);
            assert(views(pieces@) =~= p.push(seq![strand_letter(s)]));
        },
        None => {
            assert(views(pieces@) =~= p);
        },
    }
    join_chars(&pieces, ' ')
}

fn gap_chars(g: &Vec<(GapKind, usize)>) -> (r: Vec<char>)
    ensures
        r@ == gap_text(g@),
{
    let ghost toks = g@.map_values(|op: (GapKind, usize)| gap_op_text(op));
    let mut pieces: Vec<Vec<char>> = Vec::new();
    let mut i: usize = 0;
    while i < g.len()
        invariant
            toks == g@.map_values(|op: (GapKind, usize)| gap_op_text(op)),
            i <= g@.len(),
            views(pieces@) == toks.take(i as int),
        decreases g@.len() - i,
    {
        let (k, len) = g[i];
        let mut t: Vec<char> = Vec::new();
        t.push(k.letter());
        let d = decimal_text(len);
        let mut j: usize = 0;
        while j < d.len()
            invariant
                j <= d@.len(),
                t@ == seq![gap_letter(k)] + d@.subrange(0, j as int),
            decreases d@.len() - j,
        {
            t.push(d[j]);
            j += 1;
            assert(t@ =~= seq![gap_letter(k)] + d@.subrange(0, j as int));
        }
        assert(d@.subrange(0, j as int) =~= d@);
        assert(t@ =~= gap_op_text(g@[i as int]));
        let ghost before = views(pieces@);
        let ghost tv = t@;
        pieces.push(t);
        assert(views(pieces@) =~= before.push(tv));
        assert(toks.take(i + 1) =~= toks.take(i as int).push(toks[i as int]));
        i += 1;
    }
    assert(toks.take(i as int) =~= toks);
    join_chars(&pieces, ' ')
}

fn push_opt(out: &mut Vec<Vec<char>>, c: Option<Vec<char>>)
    ensures
        views(final(out)@) == views(old(out)@) + opt_views(c),
{
    match c {
        Some(c) => {
            let ghost v = c@;
            out.push(c);
            assert(views(out@) =~= views(old(out)@) + seq![v]);
        },
        None => {
            assert(views(out@) =~= views(old(out)@) + Seq::<Seq<char>>::empty());
        },
    }
}

impl AttributeSet {
    /// The attribute column that writes this set: the well-known attributes
    /// in a fixed order, then the others in their order.
    pub fn to_text(&self) -> (r: String)
        ensures
            r@ == attrs_text(self@),
    {
        let ghost a = self@;
        let mut out: Vec<Vec<char>> = Vec::new();
        assert(views(out@) =~= known_chunks(a, 0));
        push_opt(&mut out, id_chunk("ID", &self.id));
        assert(views(out@) =~= known_chunks(a, 1));
        push_opt(&mut out, text_chunk("Name", &self.name));
        assert(views(out@) =~= known_chunks(a, 2));
        push_opt(&mut out, text_chunk("Alias", &self.alias));
        assert(views(out@) =~= known_chunks(a, 3));
        let parent = match &self.parent {
            Some(p) => {
                let v = parent_chars(p);
                Some(make_chunk("Parent", v.as_slice()))
            },
            None => None,
        };
        push_opt(&mut out, parent);
        assert(views(out@) =~= known_chunks(a, 4));
        let target = match &self.target {
            Some(t) => {
                let v = target_chars(t);
                Some(make_chunk("Target", v.as_slice()))
            },
            None => None,
        };
        push_opt(&mut out, target);
        assert(views(out@) =~= known_chunks(a, 5));
        let gap = match &self.gap {
            Some(g) => {
                let v = gap_chars(g);
                Some(make_chunk("Gap", v.as_slice()))
            },
            None => None,
        };
        push_opt(&mut out, gap);
        assert(views(out@) =~= known_chunks(a, 6));
        push_opt(&mut out, id_chunk("Derives_from", &self.derives_from));
        assert(views(out@) =~= known_chunks(a, 7));
        push_opt(&mut out, text_chunk("Note", &self.note));
        assert(views(out@) =~= known_chunks(a, 8));
        push_opt(&mut out, text_chunk("Dbxref", &self.dbx_ref));
        assert(views(out@) =~= known_chunks(a, 9));
        push_opt(&mut out, text_chunk("Ontology_term", &self.ontology_term));
        assert(views(out@) =~= known_chunks(a, 10));
        let circ = match self.is_circular {
            Some(b) => {
                let v = if b {
                    chars_of("true")
                } else {
                    chars_of("false")
                };
                Some(make_chunk("Is_circular", v.as_slice()))
            },
            None => None,
        };
        push_opt(&mut out, circ);
        assert(views(out@) =~= known_chunks(a, 11));
        match &self.other {
            Some(o) => {
                let ghost start = views(out@);
                let ghost oc = other_chunks(other_views(o@));
                let mut i: usize = 0;
                while i < o.len()
                    invariant
                        i <= o@.len(),
                        oc == other_chunks(other_views(o@)),
                        views(out@) == start + oc.take(i as int),
                    decreases o@.len() - i,
                {
                    let k = chars_of(o[i].0.as_str());
                    let v = chars_of(o[i].1.as_str());
                    let mut c = k;
                    c.push('=');
                    let ghost before = c@;
                    let mut j: usize = 0;
                    while j < v.len()
                        invariant
                            j <= v@.len(),
                            c@ == before + v@.subrange(0, j as int),
                        decreases v@.len() - j,
                    {
                        c.push(v[j]);
                        j += 1;
                        assert(c@ =~= before + v@.subrange(0, j as int));
                    }
                    assert(v@.subrange(0, j as int) =~= v@);
                    assert(c@ =~= oc[i as int]);
                    let ghost before = views(out@);
                    let ghost cv = c@;
                    out.push(c);
                    assert(views(out@) =~= before.push(cv));
                    assert(oc.take(i + 1) =~= oc.take(i as int).push(oc[i as int]));
                    i += 1;
                    assert(views(out@) =~= start + oc.take(i as int));
                }
                assert(oc.take(i as int) =~= oc);
            },
            None => {
                assert(views(out@) =~= views(out@) + Seq::<Seq<char>>::empty());
            },
        }
        assert(views(out@) == attr_chunks(a));
        let t = join_chars(&out, ';');
        string_of(t.as_slice())
    }
}

/// The score column as written.
pub open spec fn score_text(s: Option<Seq<char>>) -> Seq<char> {
    match s {
        Some(t) => t,
        None => seq!['.'],
    }
}

/// The strand column as written.
pub open spec fn strand_text(s: Option<Strand>) -> Seq<char> {
    match s {
        Some(s) => seq![strand_letter(s)],
        None => seq!['.'],
    }
}

/// The phase column as written.
pub open spec fn phase_text(p: Option<u8>) -> Seq<char> {
    match p {
        Some(p) => digits_of(p as nat),
        None => seq!['.'],
    }
}

/// The nine columns of an entry as written.
pub open spec fn entry_columns(e: EntryView) -> Seq<Seq<char>> {
    seq![
        e.seq_id,
        e.source,
        e.feature_type,
        digits_of(e.range.0 as nat),
        digits_of(e.range.1 as nat),
        score_text(e.score),
        strand_text(e.strand),
        phase_text(e.phase),
        attrs_text(e.attrs),
    ]
}

/// An entry as a line.
pub open spec fn entry_line(e: EntryView) -> Seq<char> {
    join(entry_columns(e), '\t')
}

pub open spec fn no_percent(s: Seq<char>) -> bool {
    forall|i: int| 0 <= i < s.len() ==> s[i] != '%'
}

/// An entry whose written line reads back as itself: its text columns meet
/// their grammar with no `%` to decode, a score is a floating-point literal
/// without tab, a phase is 0, 1 or 2, and its attributes are writable.
pub open spec fn writable_entry(e: EntryView) -> bool {
    &&& valid_seq_id(e.seq_id) && no_percent(e.seq_id)
    &&& valid_free_text(e.source) && no_percent(e.source)
    &&& valid_free_text(e.feature_type) && no_percent(e.feature_type)
    &&& (e.score matches Some(t) ==> float_literal(t) && t != seq!['.'] && forall|i: int|
        0 <= i < t.len() ==> t[i] != '\t')
    &&& (e.phase matches Some(p) ==> p <= 2)
    &&& writable_attrs(e.attrs)
}

proof fn lemma_phase_text(p: Option<u8>)
    requires
        p matches Some(d) ==> d <= 2,
    ensures
        phase_column(phase_text(p)) == Some(p),
        forall|i: int| 0 <= i < phase_text(p).len() ==> phase_text(p)[i] != '\t',
{
    if let Some(d) = p {
        let t = phase_text(p);
        if d == 0 {
            assert(t =~= seq!['0']);
        } else if d == 1 {
            assert(t =~= seq!['1']);
            assert(t != seq!['0']) by { assert(t[0] != seq!['0'][0]); }
        } else {
            assert(t =~= seq!['2']);
            assert(t != seq!['0']) by { assert(t[0] != seq!['0'][0]); }
            assert(t != seq!['1']) by { assert(t[0] != seq!['1'][0]); }
        }
        assert(t != seq!['.']) by { assert(t[0] != seq!['.'][0]); }
    }
}

proof fn lemma_strand_text(s: Option<Strand>)
    ensures
        strand_col(strand_text(s)) == Some(s),
{
    if let Some(x) = s {
        lemma_strand_letter(x);
    }
}

/// Writing an entry that needs no escaping and reading the line back gives
/// the same entry.
pub proof fn entry_round_trip(e: EntryView)
    requires
        writable_entry(e),
    ensures
        entry_spec(entry_line(e)) == Ok::<EntryView, GffError>(e),
{
    let cols = entry_columns(e);
    attrs_round_trip(e.attrs);
    lemma_digits_of(e.range.0 as nat);
    lemma_digits_of(e.range.1 as nat);
    lemma_phase_text(e.phase);
    lemma_strand_text(e.strand);
    assert forall|i: int, j: int| 0 <= i < cols.len() && 0 <= j < cols[i].len() implies cols[i][j]
        != '\t' by {
        if i == 0 {
            assert(is_seq_id_char(e.seq_id[j]));
        } else if i == 3 {
            assert(is_digit(digits_of(e.range.0 as nat)[j]));
        } else if i == 4 {
            assert(is_digit(digits_of(e.range.1 as nat)[j]));
        } else if i == 8 {
            assert(is_attr_char(attrs_text(e.attrs)[j]));
        }
    }
    lemma_split_join(cols, '\t');
    assert(score_column(score_text(e.score)) == Some(e.score));
    unescape_is_identity_without_percent(e.seq_id);
    unescape_is_identity_without_percent(e.source);
    unescape_is_identity_without_percent(e.feature_type);
    assert(cols[3] == digits_of(e.range.0 as nat) && cols[4] == digits_of(e.range.1 as nat));
    assert(decimal_within(cols[3], usize::MAX as nat) && decimal_within(cols[4], usize::MAX as nat));
}

impl Entry {
    /// The line that writes this entry: nine columns separated by tabs.
    pub fn to_line(&self) -> (r: String)
        ensures
            r@ == entry_line(self@),
    {
        let mut cols: Vec<Vec<char>> = Vec::new();
        cols.push(chars_of(self.seq_id.as_str()));
        cols.push(chars_of(self.source.as_str()));
        cols.push(chars_of(self.feature_type.as_str()));
        cols.push(decimal_text(self.range.start));
        cols.push(decimal_text(self.range.end));
        let score = match &self.score {
            Some(t) => chars_of(t.as_str()),
            None => {
                let mut v: Vec<char> = Vec::new();
                v.push('.');
                v
            },
        };
        assert(score@ =~= score_text(self@.score));
        cols.push(score);
        let mut strand: Vec<char> = Vec::new();
        match self.strand {
            Some(s) => strand.push(strand_char(s)),
            None => strand.push('.'),
        }
        assert(strand@ =~= strand_text(self@.strand));
        cols.push(strand);
        let phase = match self.phase {
            Some(p) => decimal_text(p as usize),
            None => {
                let mut v: Vec<char> = Vec::new();
                v.push('.');
                v
            },
        };
        assert(phase@ =~= phase_text(self@.phase));
        cols.push(phase);
        let attrs = self.attrs.to_text();
        cols.push(chars_of(attrs.as_str()));
        assert(views(cols@) =~= entry_columns(self@));
        let line = join_chars(&cols, '\t');
        string_of(line.as_slice())
    }
}

} // verus!
