use transcriptase::err::TXaseError;
use transcriptase::genomics::compress::CompressedCodon;
use transcriptase::genomics::nucleotide::{DNA, RNA};
use transcriptase::proteomics::amino::AminoAcid;

#[test]
fn dna_letters_round_trip() {
    for c in "0ACMGRSVTWYHKDBN".chars() {
        let d = DNA::try_from_char(c).unwrap();
        assert_eq!(d.to_char(), c);
        assert_eq!(DNA::from_code(d.code()), Some(d));
    }
    assert_eq!(DNA::try_from_char('U'), Err(TXaseError::InvalidNucleotide("U".to_string())));
}

#[test]
fn rna_letters_round_trip() {
    for c in "0ACMGRSVUWYHKDBN".chars() {
        let r = RNA::try_from_char(c).unwrap();
        assert_eq!(r.to_char(), c);
        assert_eq!(RNA::from_code(r.code()), Some(r));
    }
    assert_eq!(RNA::try_from_char('T'), Err(TXaseError::InvalidNucleotide("T".to_string())));
}

#[test]
fn nucleotide_codes() {
    assert_eq!(DNA::Adenine.code(), 1);
    assert_eq!(DNA::Thymine.code(), 8);
    assert_eq!(DNA::Any.code(), 15);
    assert_eq!(RNA::Uracil.code(), 8);
    assert_eq!(DNA::from_code(16), None);
    assert_eq!(DNA::default(), DNA::Any);
    assert_eq!(RNA::default(), RNA::Any);
}

#[test]
fn nucleotide_from_str() {
    assert_eq!(DNA::from_str("G"), Ok(DNA::Guanine));
    assert_eq!(RNA::from_str("U"), Ok(RNA::Uracil));
    assert_eq!(DNA::from_str("GA"), Err(TXaseError::InvalidNucleotide("GA".to_string())));
    assert_eq!(DNA::from_str(""), Err(TXaseError::InvalidNucleotide(String::new())));
}

#[test]
fn compress_then_split() {
    let c = CompressedCodon::compress(DNA::Cytosine, DNA::Thymine);
    assert_eq!(c.0, 0x82);
    assert_eq!(c.split(), (DNA::Cytosine, DNA::Thymine));
    let c = CompressedCodon::compress(DNA::Any, DNA::Gap);
    assert_eq!(c.0, 0x0f);
    assert_eq!(c.split(), (DNA::Any, DNA::Gap));
}

#[test]
fn amino_names() {
    assert_eq!(AminoAcid::Alanine.abbreviation(), "Ala");
    assert_eq!(AminoAcid::Tryptonphan.short(), 'W');
    assert_eq!(AminoAcid::Tryptonphan.long(), "Tryptophan");
    assert_eq!(AminoAcid::Stop.long(), "Translation Stop");
    assert_eq!(AminoAcid::Stop.short(), '*');
}

#[test]
fn translate_codons() {
    assert_eq!(AminoAcid::translate_rna("AUG"), Ok(AminoAcid::Methionine));
    assert_eq!(AminoAcid::translate_dna("ATG"), Ok(AminoAcid::Methionine));
    assert_eq!(AminoAcid::translate_rna("UGA"), Ok(AminoAcid::Stop));
    assert_eq!(AminoAcid::translate_rna("UGG"), Ok(AminoAcid::Tryptonphan));
    assert_eq!(AminoAcid::translate_dna("GGC"), Ok(AminoAcid::Glycine));
    assert_eq!(AminoAcid::translate_rna("AUA"), Ok(AminoAcid::Isoleucine));
    assert_eq!(AminoAcid::translate_rna("ATG"), Err(TXaseError::InvalidCodon("ATG".to_string())));
    assert_eq!(AminoAcid::translate_dna("AUG"), Err(TXaseError::InvalidCodon("AUG".to_string())));
    assert_eq!(AminoAcid::translate_dna("AT"), Err(TXaseError::InvalidCodon("AT".to_string())));
}

#[test]
fn amino_from_text() {
    assert_eq!(AminoAcid::from_str("Ala"), Ok(AminoAcid::Alanine));
    assert_eq!(AminoAcid::from_str("Tryptophan"), Ok(AminoAcid::Tryptonphan));
    assert_eq!(AminoAcid::from_str("Opal"), Ok(AminoAcid::Stop));
    assert_eq!(AminoAcid::from_str("K"), Ok(AminoAcid::Lysine));
    assert_eq!(
        AminoAcid::from_str("Xyz"),
        Err(TXaseError::InternalParseFailure("Xyz".to_string()))
    );
    assert_eq!(AminoAcid::try_from_char('O'), Ok(AminoAcid::Pyrrolysine));
    assert!(AminoAcid::try_from_char('B').is_err());
}
