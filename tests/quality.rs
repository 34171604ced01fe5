use transcriptase::fastq::quality::{Phred, Quality, Solexa};

#[test]
fn contains() {
    for c in r##"!"#$%&'()*+,./0123456789:;<=>?@ABCDEFGHIJKLMNOPQRSTUVWXYZ[\]^_`abcdefghijklmnopqrstuvwxyz{|}~`-"##.chars() {
        assert!(Phred::is_valid(c));
        assert!(Solexa::is_valid(c));
    }
}

#[test]
fn quality_rejects_space_and_delete() {
    assert!(!Phred::is_valid(' '));
    assert!(!Solexa::is_valid('\u{7f}'));
    assert!(Phred::try_from_char(' ').is_none());
    assert!(Solexa::try_from_char('\u{7f}').is_none());
}

#[test]
fn phred_offset_is_33() {
    let p = Phred::try_from_char('I').unwrap();
    assert_eq!(p.value(), 40);
    assert_eq!(p.to_char(), 'I');
    assert_eq!(Phred::try_from_char('!').unwrap().value(), 0);
    assert_eq!(Phred::try_from_char('~').unwrap().value(), 93);
}

#[test]
fn solexa_keeps_the_character_code() {
    let s = Solexa::try_from_char('h').unwrap();
    assert_eq!(s.value(), b'h');
    assert_eq!(s.to_char(), 'h');
}
