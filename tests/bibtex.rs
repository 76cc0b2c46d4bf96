use envy::bibtex::{BibtexEntry, EntryKind, ParseError};

#[test]
fn end_same_line() {
    let input = "@inproceedings{zhai2018autoencoder,
title={Autoencoder and its various variants},
author={Zhai, Junhai and Zhang, Sufang and Chen, Junfen and He, Qiang},
booktitle={2018 IEEE international conference on systems, man, and cybernetics (SMC)},
pages={415--419},
year={2018},
organization={IEEE} }";
    let entry = BibtexEntry::try_from_str(input).unwrap();
    assert_eq!(
        entry.author,
        "Zhai, Junhai and Zhang, Sufang and Chen, Junfen and He, Qiang"
    );
    assert_eq!(entry.year, "2018");
}

#[test]
fn end_new_line() {
    let input = "@inproceedings{zhai2018autoencoder,
title={Autoencoder and its various variants},
author={Zhai, Junhai and Zhang, Sufang and Chen, Junfen and He, Qiang},
booktitle={2018 IEEE international conference on systems, man, and cybernetics (SMC)},
pages={415--419},
year={2018},
organization={IEEE}
}";
    let entry = BibtexEntry::try_from_str(input).unwrap();
    assert_eq!(
        entry.author,
        "Zhai, Junhai and Zhang, Sufang and Chen, Junfen and He, Qiang"
    );
    assert_eq!(entry.title, "Autoencoder and its various variants");
    assert_eq!(entry.year, "2018");
}

#[test]
fn no_braces_title() {
    let input = "@inproceedings{zhai2018autoencoder,
title=Autoencoder and its various variants,
author={Zhai, Junhai and Zhang, Sufang and Chen, Junfen and He, Qiang},
booktitle={2018 IEEE international conference on systems, man, and cybernetics (SMC)},
pages={415--419},
year={2018},
organization={IEEE} }";
    let entry = BibtexEntry::try_from_str(input).unwrap();
    assert_eq!(
        entry.author,
        "Zhai, Junhai and Zhang, Sufang and Chen, Junfen and He, Qiang"
    );
    assert_eq!(entry.title, "Autoencoder and its various variants");
    assert_eq!(entry.year, "2018");
}

#[test]
fn braces_middle_title() {
    let input = "@inproceedings{zhai2018autoencoder,
title=Autoencoder and its {various} variants,
author={Zhai, Junhai and Zhang, Sufang and Chen, Junfen and He, Qiang},
booktitle={2018 IEEE international conference on systems, man, and cybernetics (SMC)},
pages={415--419},
year={2018},
organization={IEEE} }";
    let entry = BibtexEntry::try_from_str(input).unwrap();
    assert_eq!(
        entry.author,
        "Zhai, Junhai and Zhang, Sufang and Chen, Junfen and He, Qiang"
    );
    assert_eq!(entry.title, "Autoencoder and its {various} variants");
    assert_eq!(entry.year, "2018");
}

#[test]
fn spaces() {
    let input = "@inproceedings{zhai2018autoencoder,
title=Autoencoder and its {various} variants,
author = {Zhai, Junhai and Zhang, Sufang and Chen, Junfen and He, Qiang}   ,
booktitle={2018 IEEE international conference on systems, man, and cybernetics (SMC)},
pages={415--419},
year={2018},
organization={IEEE} }";
    let entry = BibtexEntry::try_from_str(input).unwrap();
    assert_eq!(
        entry.author,
        "Zhai, Junhai and Zhang, Sufang and Chen, Junfen and He, Qiang"
    );
    assert_eq!(entry.year, "2018");
}

#[test]
fn kind_and_name_are_kept() {
    let entry =
        BibtexEntry::try_from_str("  @article{key2020,author={A},year={2020},title={T}}").unwrap();
    assert_eq!(entry.kind, EntryKind::Article);
    assert_eq!(entry.name, "key2020");
    assert_eq!(entry.author, "A");
    assert_eq!(entry.title, "T");
}

#[test]
fn fields_in_any_order() {
    let entry =
        BibtexEntry::try_from_str("@book{b,title={Tt},year={1999},author={Au}}").unwrap();
    assert_eq!(entry.kind, EntryKind::Book);
    assert_eq!(entry.author, "Au");
    assert_eq!(entry.year, "1999");
    assert_eq!(entry.title, "Tt");
}

#[test]
fn nested_braces_round_trip() {
    let entry =
        BibtexEntry::try_from_str("@misc{m,field={a{b}c},title={a{b}c},author={x},year={1}}")
            .unwrap();
    assert_eq!(entry.title, "a{b}c");
}

#[test]
fn closing_brace_after_last_field() {
    let entry =
        BibtexEntry::try_from_str("@misc{m,author={x},year={1},title={t},organization={IEEE} }")
            .unwrap();
    assert_eq!(entry.title, "t");
    assert_eq!(entry.author, "x");
}

#[test]
fn later_field_wins() {
    let entry =
        BibtexEntry::try_from_str("@misc{m,author={x},year={1},title={t},year={2}}").unwrap();
    assert_eq!(entry.year, "2");
}

#[test]
fn literal_brace_inside_value() {
    let entry =
        BibtexEntry::try_from_str("@misc{m,title={a} b,author={x},year={1}}").unwrap();
    assert_eq!(entry.title, "a} b");
}

#[test]
fn non_ascii_text_is_copied() {
    let entry =
        BibtexEntry::try_from_str("@misc{m,author={Gödel, Kurt},year={1931},title={Über}}")
            .unwrap();
    assert_eq!(entry.author, "Gödel, Kurt");
    assert_eq!(entry.title, "Über");
}

#[test]
fn phdthesis_kind() {
    let entry =
        BibtexEntry::try_from_str("@phdthesis{p,author={a},year={1},title={t}}").unwrap();
    assert_eq!(entry.kind, EntryKind::PhdThesis);
}

#[test]
fn missing_title_fails() {
    let r = BibtexEntry::try_from_str("@misc{m,author={x},year={1}}");
    assert_eq!(r.err(), Some(ParseError::MissingTitle));
}

#[test]
fn missing_author_fails() {
    let r = BibtexEntry::try_from_str("@misc{m,title={t},year={1}}");
    assert_eq!(r.err(), Some(ParseError::MissingAuthor));
}

#[test]
fn missing_year_fails() {
    let r = BibtexEntry::try_from_str("@misc{m,title={t},author={a}}");
    assert_eq!(r.err(), Some(ParseError::MissingYear));
}

#[test]
fn bad_start_fails() {
    let r = BibtexEntry::try_from_str("misc{m,title={t},author={a},year={1}}");
    assert_eq!(r.err(), Some(ParseError::BadStart));
    let r = BibtexEntry::try_from_str("");
    assert_eq!(r.err(), Some(ParseError::BadStart));
}

#[test]
fn unterminated_kind_fails() {
    let r = BibtexEntry::try_from_str("@misc");
    assert_eq!(r.err(), Some(ParseError::UnterminatedKind));
}

#[test]
fn invalid_kind_fails() {
    let r = BibtexEntry::try_from_str("@Article{m,title={t},author={a},year={1}}");
    assert_eq!(r.err(), Some(ParseError::InvalidKind));
    let r = BibtexEntry::try_from_str("@artïcle{m,title={t},author={a},year={1}}");
    assert_eq!(r.err(), Some(ParseError::InvalidKind));
}

#[test]
fn unterminated_name_fails() {
    let r = BibtexEntry::try_from_str("@misc{m");
    assert_eq!(r.err(), Some(ParseError::UnterminatedName));
}

#[test]
fn unterminated_key_fails() {
    let r = BibtexEntry::try_from_str("@misc{m,title {t}}");
    assert_eq!(r.err(), Some(ParseError::UnterminatedKey));
}

#[test]
fn unmatched_brace_fails() {
    let r = BibtexEntry::try_from_str("@misc{m,title=t},author={a},year={1}}");
    assert_eq!(r.err(), Some(ParseError::UnmatchedBrace));
}

#[test]
fn unterminated_value_fails() {
    let r = BibtexEntry::try_from_str("@misc{m,title={t");
    assert_eq!(r.err(), Some(ParseError::UnterminatedValue));
}

#[test]
fn premature_end_fails() {
    let r = BibtexEntry::try_from_str("@misc{m,title={t},");
    assert_eq!(r.err(), Some(ParseError::PrematureEnd));
}

#[test]
fn kind_from_bytes() {
    assert_eq!(EntryKind::try_from_ascii_u8(b"techreport"), Ok(EntryKind::Techreport));
    assert_eq!(EntryKind::try_from_ascii_u8(b"unpublished"), Ok(EntryKind::Unpublished));
    assert_eq!(EntryKind::try_from_ascii_u8(b"journal"), Err(ParseError::InvalidKind));
    assert_eq!(EntryKind::try_from_ascii_u8(b""), Err(ParseError::InvalidKind));
}
