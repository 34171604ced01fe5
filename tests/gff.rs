use transcriptase::gff::attr::{AttributeSet, GapKind};
use transcriptase::gff::meta::Metadata;
use transcriptase::gff::parsers::{phase, range_bound, score, seq_id, strand, Field};
use transcriptase::gff::{Entry, GffError, Strand, UnescapedString, GFF};

#[test]
fn no_uppercase_attr() {
    AttributeSet::parse("A=0").unwrap_err();
}

#[test]
fn reserved_tags_are_refused() {
    assert_eq!(AttributeSet::parse("A=0").unwrap_err(), GffError::ReservedAttribute);
    assert_eq!(AttributeSet::parse("Foo=bar").unwrap_err(), GffError::ReservedAttribute);
    assert_eq!(AttributeSet::parse("Xyz=1;ID=a").unwrap_err(), GffError::ReservedAttribute);
    assert_eq!(AttributeSet::parse("ID=a;Id=b").unwrap_err(), GffError::ReservedAttribute);
}

#[test]
fn known_tag_happy_path() {
    let a = AttributeSet::parse("ID=gene1;Name=foo;Is_circular=true").unwrap();
    assert_eq!(a.id.as_ref().unwrap().as_str(), "gene1");
    assert_eq!(a.name.as_ref().unwrap().as_str(), "foo");
    assert_eq!(a.is_circular, Some(true));
    assert!(a.other.is_none());
}

#[test]
fn attribute_errors() {
    assert_eq!(AttributeSet::parse("noequals").unwrap_err(), GffError::InvalidAttribute);
    assert_eq!(AttributeSet::parse("ID=a;").unwrap_err(), GffError::InvalidAttribute);
    assert_eq!(AttributeSet::parse("=x").unwrap_err(), GffError::InvalidAttribute);
    assert_eq!(AttributeSet::parse("ID=a;ID=b").unwrap_err(), GffError::DuplicateId);
    assert_eq!(AttributeSet::parse("Gap=X5").unwrap_err(), GffError::InvalidGapKind);
    assert_eq!(AttributeSet::parse("Gap=M").unwrap_err(), GffError::FromStrErr);
    assert_eq!(AttributeSet::parse("Is_circular=yes").unwrap_err(), GffError::IsCircularNotBool);
    assert_eq!(AttributeSet::parse("Target=t 1").unwrap_err(), GffError::InvalidAttribute);
    assert_eq!(AttributeSet::parse("Target=t 1 2 + x").unwrap_err(), GffError::MalformedTarget);
    assert_eq!(AttributeSet::parse("Target=t 1 2 x").unwrap_err(), GffError::InvalidStrand);
    assert_eq!(AttributeSet::parse("Target=t a 2").unwrap_err(), GffError::FromStrErr);
    assert_eq!(AttributeSet::parse("Parent=a,,b").unwrap_err(), GffError::InvalidAttribute);
    assert_eq!(AttributeSet::parse("Note=%zz").unwrap_err(), GffError::StringDecodeErr);
}

#[test]
fn structured_attributes() {
    let a = AttributeSet::parse("Parent=p1,p2;Target=EST23 1 21 +;Gap=M8 D3 M6;Derives_from=x%20y")
        .unwrap();
    let parents: Vec<&str> = a.parent.as_ref().unwrap().iter().map(|p| p.as_str()).collect();
    assert_eq!(parents, vec!["p1", "p2"]);
    let t = a.target.as_ref().unwrap();
    assert_eq!(t.target_id.as_str(), "EST23");
    assert_eq!((t.start, t.end), (1, 21));
    assert_eq!(t.strand, Some(Strand::Positive));
    assert_eq!(
        a.gap.clone().unwrap(),
        vec![(GapKind::Match, 8), (GapKind::Delete, 3), (GapKind::Match, 6)]
    );
    assert_eq!(a.derives_from.as_ref().unwrap().as_str(), "x y");
    let b = AttributeSet::parse("ID=g%3B1;Parent=a%2Cb,c;Target=t%201 1 2").unwrap();
    assert_eq!(b.id.as_ref().unwrap().as_str(), "g;1");
    let parents: Vec<&str> = b.parent.as_ref().unwrap().iter().map(|p| p.as_str()).collect();
    assert_eq!(parents, vec!["a,b", "c"]);
    assert_eq!(b.target.as_ref().unwrap().target_id.as_str(), "t 1");
    assert_eq!(AttributeSet::parse("ID=%zz").unwrap_err(), GffError::StringDecodeErr);
    assert_eq!(AttributeSet::parse("Parent=a,%4").unwrap_err(), GffError::StringDecodeErr);
    assert_eq!(AttributeSet::parse("Parent=%4,").unwrap_err(), GffError::InvalidAttribute);
    let t = AttributeSet::parse("Target=EST23 1 21").unwrap().target.unwrap();
    assert_eq!(t.strand, None);
}

#[test]
fn other_attributes_keep_order_and_decode() {
    let a = AttributeSet::parse("b=2;a=x%3By;Note=n;b=3").unwrap();
    let other: Vec<(String, String)> = a
        .other
        .unwrap()
        .iter()
        .map(|(k, v)| (k.clone(), v.as_str().to_string()))
        .collect();
    assert_eq!(
        other,
        vec![
            ("b".to_string(), "2".to_string()),
            ("a".to_string(), "x;y".to_string()),
            ("b".to_string(), "3".to_string())
        ]
    );
    assert_eq!(a.note.unwrap().as_str(), "n");
}

#[test]
fn gap_kind_letters() {
    for (c, k) in [
        ('M', GapKind::Match),
        ('I', GapKind::Insert),
        ('D', GapKind::Delete),
        ('F', GapKind::FwdFrameShift),
        ('R', GapKind::RevFrameShift),
    ] {
        assert_eq!(GapKind::parse(c), Ok(k));
        assert_eq!(k.letter(), c);
    }
    assert_eq!(GapKind::parse('m'), Err(GffError::InvalidGapKind));
}

#[test]
fn unescaping() {
    assert_eq!(UnescapedString::new("plain text").unwrap().as_str(), "plain text");
    assert_eq!(UnescapedString::new("").unwrap().as_str(), "");
    assert_eq!(UnescapedString::new("a%3Bb%3db").unwrap().as_str(), "a;b=b");
    assert_eq!(UnescapedString::new("%2541").unwrap().as_str(), "%41");
    assert_eq!(UnescapedString::new("%4").unwrap_err(), GffError::StringDecodeErr);
    assert_eq!(UnescapedString::new("ab%").unwrap_err(), GffError::StringDecodeErr);
    assert_eq!(UnescapedString::new("%g1").unwrap_err(), GffError::StringDecodeErr);
    assert_eq!(UnescapedString::new("%C3%A9").unwrap().as_str(), "é");
    assert_eq!(UnescapedString::new("caf%C3%A9").unwrap().as_str(), "café");
    assert_eq!(UnescapedString::new("%c3%a9t%C3%A9").unwrap().as_str(), "été");
    assert_eq!(UnescapedString::new("%C3").unwrap_err(), GffError::StringDecodeErr);
    assert_eq!(UnescapedString::new("%FFabc").unwrap_err(), GffError::StringDecodeErr);
    assert_eq!(UnescapedString::new("%C3x").unwrap_err(), GffError::StringDecodeErr);
}

#[test]
fn percent_encoded_text_decodes_back() {
    for s in ["café", "a;b=c", "日本語 %", "🧬 DNA", ""] {
        let enc: String = s.bytes().map(|b| format!("%{:02X}", b)).collect();
        assert_eq!(UnescapedString::new(&enc).unwrap().as_str(), s);
    }
}

#[test]
fn unescaping_without_percent_is_identity() {
    for s in ["abc", "NC_045512.2", "x y;z=w", "é"] {
        let once = UnescapedString::new(s).unwrap();
        assert_eq!(once.as_str(), s);
        assert_eq!(UnescapedString::new(once.as_str()).unwrap().as_str(), s);
    }
}

#[test]
fn range_bound_rejects_non_digits_and_negatives() {
    assert!(range_bound("-5").is_err());
    assert_eq!(range_bound("100"), Ok(100));
    assert!(range_bound("").is_err());
    assert!(range_bound("1a").is_err());
    assert!(range_bound("+5").is_err());
    assert_eq!(range_bound("18446744073709551615"), Ok(usize::MAX));
    assert_eq!(range_bound("18446744073709551616"), Err(GffError::ParseError(Field::Start)));
}

#[test]
fn score_literal_duality() {
    assert_eq!(score("."), Ok(None));
    let s = score("3.14").unwrap().unwrap();
    assert_eq!(s.parse::<f64>().unwrap(), 3.14);
    assert!(score("1e5").unwrap().is_some());
    assert_eq!(score("abc"), Err(GffError::ParseError(Field::Score)));
    assert_eq!(score("3.14x"), Err(GffError::ParseError(Field::Score)));
    assert_eq!(score(""), Err(GffError::ParseError(Field::Score)));
    for ok in ["nan", "NaN", "INF", ".5", "5.", "+1.5E-3", "-2e10", "007"] {
        assert_eq!(score(ok), Ok(Some(ok.to_string())), "{ok}");
    }
    for bad in ["infinity", "-inf", "-nan", "1e", "1e+", "e5", "+", "1.2.3", " 1", "1 "] {
        assert_eq!(score(bad), Err(GffError::ParseError(Field::Score)), "{bad}");
    }
}

#[test]
fn strand_enum_closure() {
    assert_eq!(Strand::parse('+'), Ok(Strand::Positive));
    assert_eq!(Strand::parse('-'), Ok(Strand::Negative));
    assert_eq!(Strand::parse('?'), Ok(Strand::Unknown));
    for c in ['.', 'x', '0', ' ', '*'] {
        assert_eq!(Strand::parse(c), Err(GffError::InvalidStrand));
    }
    assert_eq!(strand("."), Ok(None));
    assert_eq!(strand("-"), Ok(Some(Strand::Negative)));
    assert!(strand("++").is_err());
}

#[test]
fn phase_and_seq_id_columns() {
    assert_eq!(phase("."), Ok(None));
    assert_eq!(phase("2"), Ok(Some(2)));
    assert_eq!(phase("3"), Err(GffError::ParseError(Field::Phase)));
    assert!(seq_id("chr1|x>y"));
    assert!(!seq_id(">chr1"));
    assert!(!seq_id(""));
    assert!(!seq_id("a b"));
}

#[test]
fn full_entry_example() {
    let line = "NC_045512.2\tRefSeq\tregion\t1\t29903\t.\t+\t.\tID=NC_045512.2:1..29903;gbkey=Src";
    let e = Entry::parse(line).unwrap();
    assert_eq!(e.seq_id.as_str(), "NC_045512.2");
    assert_eq!(e.source.as_str(), "RefSeq");
    assert_eq!(e.feature_type.as_str(), "region");
    assert_eq!(e.range, 1..29903);
    assert_eq!(e.score, None);
    assert_eq!(e.strand, Some(Strand::Positive));
    assert_eq!(e.phase, None);
    assert_eq!(e.attrs.id.as_ref().unwrap().as_str(), "NC_045512.2:1..29903");
    let other = e.attrs.other.as_ref().unwrap();
    assert_eq!(other.len(), 1);
    assert_eq!(other[0].0, "gbkey");
    assert_eq!(other[0].1.as_str(), "Src");
}

#[test]
fn entry_column_errors() {
    let err = |l: &str| Entry::parse(l).unwrap_err();
    assert_eq!(err(">c\ts\tt\t1\t2\t.\t+\t.\tID=a"), GffError::ParseError(Field::SeqId));
    assert_eq!(err("c\t\tt\t1\t2\t.\t+\t.\tID=a"), GffError::ParseError(Field::Source));
    assert_eq!(err("c\ts"), GffError::ParseError(Field::FeatureType));
    assert_eq!(err("c\ts\tt\t-1\t2\t.\t+\t.\tID=a"), GffError::ParseError(Field::Start));
    assert_eq!(err("c\ts\tt\t1\tx\t.\t+\t.\tID=a"), GffError::ParseError(Field::End));
    assert_eq!(err("c\ts\tt\t1\t2\tz\t+\t.\tID=a"), GffError::ParseError(Field::Score));
    assert_eq!(err("c\ts\tt\t1\t2\t.\tx\t.\tID=a"), GffError::ParseError(Field::Strand));
    assert_eq!(err("c\ts\tt\t1\t2\t.\t+\t5\tID=a"), GffError::ParseError(Field::Phase));
    assert_eq!(err("c\ts\tt\t1\t2\t.\t+\t.\tID=<a>"), GffError::ParseError(Field::Attributes));
    assert_eq!(err("c\ts\tt\t1\t2\t.\t+\t.\tID=a\textra"), GffError::ParseError(Field::Trailing));
    assert_eq!(err("c%zz\ts\tt\t1\t2\t.\t+\t.\tID=a"), GffError::StringDecodeErr);
    assert_eq!(err("c\ts\tt\t1\t2\t.\t+\t.\tName=a;Name"), GffError::InvalidAttribute);
}

#[test]
fn entry_with_score_and_phase() {
    let e = Entry::parse("ctg1\tGenbank\tCDS\t10\t20\t0.5\t-\t2\tParent=mrna1").unwrap();
    assert_eq!(e.score.as_deref(), Some("0.5"));
    assert_eq!(e.strand, Some(Strand::Negative));
    assert_eq!(e.phase, Some(2));
    assert_eq!(e.range, 10..20);
}

const DOC: &str = "##gff-version 3.1.2\n\
##sequence-region ctg1 1 1000\n\
#!genome-build-accession NCBI:GCF_1\n\
# a comment\n\
\n\
ctg1\tsrc\tgene\t1\t100\t.\t+\t.\tID=g1\r\n\
ctg1\tsrc\tmRNA\t1\t100\t.\t+\t.\tID=m1;Parent=g1\n";

#[test]
fn document_is_assembled_in_order() {
    let d = GFF::parse(DOC).unwrap();
    assert_eq!(d.metadata.version, Some((1, 2)));
    let regions = d.metadata.sequence_regions.as_ref().unwrap();
    assert_eq!(regions.len(), 1);
    assert_eq!(regions[0].0.as_str(), "ctg1");
    assert_eq!(regions[0].1, 1..1000);
    let other = d.metadata.other_meta.as_ref().unwrap();
    assert_eq!(other[0].0.as_str(), "genome-build-accession");
    assert_eq!(other[0].1.as_str(), "NCBI:GCF_1");
    assert_eq!(d.entries.len(), 2);
    assert_eq!(d.entries[0].attrs.id.as_ref().unwrap().as_str(), "g1");
    assert_eq!(d.entries[1].feature_type.as_str(), "mRNA");
}

#[test]
fn terminator_ends_the_document() {
    let d = GFF::parse("##gff-version 3\nc\ts\tt\t1\t2\t.\t.\t.\tID=a\n###\nnot an entry\n").unwrap();
    assert_eq!(d.metadata.version, None);
    assert_eq!(d.entries.len(), 1);
}

#[test]
fn bad_line_aborts_the_document() {
    assert_eq!(
        GFF::parse("c\ts\tt\t1\t2\t.\t.\t.\tID=a\nbroken line\n").unwrap_err(),
        GffError::ParseError(Field::SeqId)
    );
    assert_eq!(
        GFF::parse("c\ts\tt\t1\t2\t.\t.\t.\tID=a\nbroken\n").unwrap_err(),
        GffError::ParseError(Field::Source)
    );
}

#[test]
fn failing_line_is_located() {
    let doc = "##gff-version 3\n# note\nc\ts\tt\t1\t2\t.\t.\t.\tID=a\nc\ts\tt\t1\t2\t.\t.\t.\tXy=1\n";
    assert_eq!(GFF::parse_with_line(doc).unwrap_err(), (3, GffError::ReservedAttribute));
    assert_eq!(GFF::parse_with_line("##nope x\n").unwrap_err(), (0, GffError::InvalidAttribute));
    assert_eq!(GFF::parse_with_line(doc.split("c\ts").next().unwrap()).unwrap().entries.len(), 0);
}

#[test]
fn duplicate_sequence_region_rejected() {
    let doc = "##gff-version 3\n##sequence-region ctg1 1 100\n##sequence-region ctg1 1 100\n";
    assert_eq!(GFF::parse(doc).unwrap_err(), GffError::DuplicateSequence);
    let doc = "##sequence-region ctg1 1 100\n##sequence-region ctg2 1 5\n##sequence-region ctg1 7 9\n";
    assert_eq!(GFF::parse(doc).unwrap_err(), GffError::DuplicateSequence);
}

#[test]
fn version_gate() {
    assert_eq!(GFF::parse("##gff-version 2\n").unwrap_err(), GffError::InvalidVersion);
    assert_eq!(GFF::parse("##gff-version 3.1\n").unwrap_err(), GffError::InvalidVersion);
    let d = GFF::parse("##gff-version 3.1.2\n").unwrap();
    assert_eq!(d.metadata.version, Some((1, 2)));
    let d = GFF::parse("#!spec-version 1.26\n").unwrap();
    assert_eq!(d.metadata.version, Some((1, 26)));
}

#[test]
fn pragma_errors() {
    let mut m = Metadata::new();
    assert_eq!(m.parse_line(false, "gff-version"), Err(GffError::MalformedLine));
    assert_eq!(m.parse_line(false, "sequence-region c1 1 5"), Ok(()));
    assert_eq!(m.parse_line(false, "gff-version 3.1.2"), Ok(()));
    assert_eq!(m.parse_line(false, "sequence-region c1 7 9"), Err(GffError::DuplicateSequence));
    assert_eq!(m.parse_line(false, "gff-version 2"), Err(GffError::InvalidVersion));
    assert_eq!(m.version, Some((1, 2)));
    assert_eq!(m.sequence_regions.as_ref().unwrap().len(), 1);
    assert_eq!(m.sequence_regions.as_ref().unwrap()[0].1, 1..5);
    let mut m = Metadata::new();
    assert_eq!(m.parse_line(false, "genome-build NCBI"), Err(GffError::InvalidGenomeBuild));
    assert_eq!(m.parse_line(false, "unknown-pragma x"), Err(GffError::InvalidAttribute));
    assert_eq!(
        m.parse_line(false, "sequence-region ctg1 1"),
        Err(GffError::ParseError(Field::SequenceRegion))
    );
    assert_eq!(m.parse_line(true, "k v"), Ok(()));
    assert_eq!(m.parse_line(true, "k w"), Err(GffError::DuplicateMetaAttribute));
    assert_eq!(m.parse_line(false, "species http://x.org/%3Fid"), Ok(()));
    assert_eq!(m.species_uri.as_ref().unwrap().as_str(), "http://x.org/?id");
    assert_eq!(m.parse_line(false, "genome-build NCBI B36"), Ok(()));
    let (s, b) = m.genome_build.as_ref().unwrap();
    assert_eq!((s.as_str(), b.as_str()), ("NCBI", "B36"));
}

#[test]
fn entries_and_documents_parse_through_from_str() {
    let e: Entry = "c\ts\tt\t1\t2\t.\t.\t.\tID=a".parse().unwrap();
    assert_eq!(e.attrs.id.unwrap().as_str(), "a");
    let d: GFF = "##gff-version 3\n".parse().unwrap();
    assert!(d.entries.is_empty());
    assert!("c\ts".parse::<Entry>().is_err());
}

#[test]
fn written_entry_reads_back() {
    let line = "ctg1\tGenbank\tCDS\t10\t20\t0.5\t-\t2\tID=c1;Name=x y;Parent=m1,m2;Target=t1 3 9 +;Gap=M8 D3;Is_circular=false;note2=a b";
    let e = Entry::parse(line).unwrap();
    let written = e.to_line();
    assert_eq!(
        written,
        "ctg1\tGenbank\tCDS\t10\t20\t0.5\t-\t2\tID=c1;Name=x y;Parent=m1,m2;Target=t1 3 9 +;Gap=M8 D3;Is_circular=false;note2=a b"
    );
    let again = Entry::parse(&written).unwrap();
    assert_eq!(again.to_line(), written);
    assert_eq!(again.range, e.range);
    assert_eq!(again.attrs, e.attrs);
}

#[test]
fn attributes_are_written_in_fixed_order() {
    let a = AttributeSet::parse("zeta=1;Note=n;ID=i").unwrap();
    assert_eq!(a.to_text(), "ID=i;Note=n;zeta=1");
    let e = Entry::parse("c\ts\tt\t1\t2\t.\t.\t.\tID=a").unwrap();
    assert_eq!(e.to_line(), "c\ts\tt\t1\t2\t.\t.\t.\tID=a");
}
