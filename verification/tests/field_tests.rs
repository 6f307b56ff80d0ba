use commit_report::error::{invalid_format, FieldError, TextField};
use commit_report::field::{
    classify, contains_field, parse_fields, split_codes, Field, FieldKind, Rejection,
};

fn all_fields() -> Vec<Field> {
    vec![
        Field::CommitHash,
        Field::ShortCommitHash,
        Field::TreeHash,
        Field::ShortTreeHash,
        Field::ParentHashes,
        Field::ShortParentHashes,
        Field::AuthorName,
        Field::AuthorEmail,
        Field::AuthorTime,
        Field::AuthorIsoTime,
        Field::CommitterTime,
        Field::CommitterIsoTime,
        Field::RefNames,
        Field::Summary,
        Field::Message,
        Field::FilesChanged,
        Field::Insertions,
        Field::Deletions,
    ]
}

#[test]
fn every_field_has_its_code() {
    let codes: Vec<&str> = all_fields().iter().map(|f| f.code()).collect();
    assert_eq!(
        codes,
        vec![
            "H", "h", "T", "t", "P", "p", "an", "ae", "at", "aI", "ct", "cI", "D", "s", "B", "df",
            "di", "dd"
        ]
    );
}

#[test]
fn codes_name_their_fields() {
    for field in all_fields() {
        assert_eq!(classify(field.code()), FieldKind::Supported(field));
    }
}

#[test]
fn disallowed_codes_have_reasons() {
    for code in ["aN", "aE"] {
        assert_eq!(classify(code), FieldKind::Unsupported(Rejection::Mailmap));
    }
    for code in ["ad", "aD", "ar", "ai"] {
        assert_eq!(classify(code), FieldKind::Unsupported(Rejection::AuthorDate));
    }
    for code in ["cd", "cD", "cr", "ci"] {
        assert_eq!(classify(code), FieldKind::Unsupported(Rejection::CommitterDate));
    }
    assert_eq!(classify("d"), FieldKind::Unsupported(Rejection::RefFormat));
    assert_eq!(classify("b"), FieldKind::Unsupported(Rejection::BodyOnly));
    assert_eq!(classify("N"), FieldKind::Unsupported(Rejection::Notes));
    for code in ["GG", "G?", "GS", "GK"] {
        assert_eq!(classify(code), FieldKind::Unsupported(Rejection::Signatures));
    }
}

#[test]
fn other_codes_are_unknown() {
    for code in ["", "x", "HH", "H ", " H", "AN", "e", "n", "G", "%H", "ané"] {
        assert_eq!(classify(code), FieldKind::Unsupported(Rejection::Unknown));
    }
}

#[test]
fn reasons_in_words() {
    assert_eq!(
        Rejection::Mailmap.reason(),
        "Mailmaps not currently supported, consider using `an`/`ae` instead of `aN`/`aE`"
    );
    assert_eq!(
        Rejection::AuthorDate.reason(),
        "Formatted dates not supported, use `aI` and format the date yourself"
    );
    assert_eq!(
        Rejection::CommitterDate.reason(),
        "Formatted dates not supported, use `cI` and format the date yourself"
    );
    assert_eq!(
        Rejection::RefFormat.reason(),
        "Formatted ref names not supported, use `D` and format the names yourself"
    );
    assert_eq!(
        Rejection::BodyOnly.reason(),
        "Body not supported, use `B` and extract the body yourself"
    );
    assert_eq!(Rejection::Notes.reason(), "Notes not currently supported");
    assert_eq!(Rejection::Signatures.reason(), "Signatures not currently supported");
    assert_eq!(Rejection::Unknown.reason(), "Not found");
}

#[test]
fn splitting_at_commas() {
    assert_eq!(split_codes(""), vec![""]);
    assert_eq!(split_codes("H"), vec!["H"]);
    assert_eq!(split_codes("H,an,at"), vec!["H", "an", "at"]);
    assert_eq!(split_codes("a,,b"), vec!["a", "", "b"]);
    assert_eq!(split_codes(","), vec!["", ""]);
    assert_eq!(split_codes("H,"), vec!["H", ""]);
    assert_eq!(split_codes(",H"), vec!["", "H"]);
    assert_eq!(split_codes("é,ü"), vec!["é", "ü"]);
}

#[test]
fn splitting_agrees_with_std() {
    for list in ["", ",", ",,", "a", "a,b", "ab,,cd,", ",x,y,,", "H,h,T,t,P,p,an,ae"] {
        let expected: Vec<String> = list.split(',').map(|s| s.to_string()).collect();
        assert_eq!(split_codes(list), expected);
    }
}

#[test]
fn field_lists_keep_order_and_repetitions() {
    assert_eq!(parse_fields("H"), Ok(vec![Field::CommitHash]));
    assert_eq!(
        parse_fields("an,H,at"),
        Ok(vec![Field::AuthorName, Field::CommitHash, Field::AuthorTime])
    );
    assert_eq!(
        parse_fields("H,H,D,H,D"),
        Ok(vec![
            Field::CommitHash,
            Field::CommitHash,
            Field::RefNames,
            Field::CommitHash,
            Field::RefNames
        ])
    );
    assert_eq!(
        parse_fields("H,h,T,t,P,p,an,ae,at,aI,ct,cI,D,s,B,df,di,dd"),
        Ok(all_fields())
    );
}

#[test]
fn field_lists_fail_at_the_first_bad_code() {
    assert_eq!(
        parse_fields("H,aD,N"),
        Err(FieldError::InvalidFormat { code: "aD".to_string(), rejection: Rejection::AuthorDate })
    );
    assert_eq!(
        parse_fields("N,aD"),
        Err(FieldError::InvalidFormat { code: "N".to_string(), rejection: Rejection::Notes })
    );
    assert_eq!(
        parse_fields(""),
        Err(FieldError::InvalidFormat { code: "".to_string(), rejection: Rejection::Unknown })
    );
    assert_eq!(
        parse_fields("H,"),
        Err(FieldError::InvalidFormat { code: "".to_string(), rejection: Rejection::Unknown })
    );
    assert_eq!(
        parse_fields("H, an"),
        Err(FieldError::InvalidFormat { code: " an".to_string(), rejection: Rejection::Unknown })
    );
}

#[test]
fn messages_name_the_code_and_the_alternative() {
    assert_eq!(
        parse_fields("aD").unwrap_err().message(),
        "Invalid format `aD`: Formatted dates not supported, use `aI` and format the date yourself"
    );
    assert_eq!(
        parse_fields("H,cr").unwrap_err().message(),
        "Invalid format `cr`: Formatted dates not supported, use `cI` and format the date yourself"
    );
    assert_eq!(
        parse_fields("aN").unwrap_err().message(),
        "Invalid format `aN`: Mailmaps not currently supported, consider using `an`/`ae` instead of `aN`/`aE`"
    );
    assert_eq!(
        parse_fields("d").unwrap_err().message(),
        "Invalid format `d`: Formatted ref names not supported, use `D` and format the names yourself"
    );
    assert_eq!(
        parse_fields("b").unwrap_err().message(),
        "Invalid format `b`: Body not supported, use `B` and extract the body yourself"
    );
    assert_eq!(
        parse_fields("N").unwrap_err().message(),
        "Invalid format `N`: Notes not currently supported"
    );
    assert_eq!(
        parse_fields("G?").unwrap_err().message(),
        "Invalid format `G?`: Signatures not currently supported"
    );
    assert_eq!(parse_fields("zz").unwrap_err().message(), "Invalid format `zz`: Not found");
}

#[test]
fn messages_of_the_other_errors() {
    assert_eq!(
        FieldError::InvalidText(TextField::AuthorName).message(),
        "Author name contains invalid UTF8"
    );
    assert_eq!(
        FieldError::InvalidText(TextField::AuthorEmail).message(),
        "Author email contains invalid UTF8"
    );
    assert_eq!(
        FieldError::InvalidText(TextField::Summary).message(),
        "Commit header contains invalid UTF8"
    );
    assert_eq!(
        FieldError::InvalidText(TextField::Message).message(),
        "Commit message contains invalid UTF8"
    );
    assert_eq!(FieldError::BadShortHash.message(), "libgit returned a bad shorthash");
    assert_eq!(FieldError::Backend("object not found".to_string()).message(), "object not found");
    assert_eq!(FieldError::TimeOutOfRange.message(), "Commit time is out of range");
}

#[test]
fn invalid_format_message() {
    assert_eq!(invalid_format("xy", "Not found"), "Invalid format `xy`: Not found");
    assert_eq!(invalid_format("", ""), "Invalid format ``: ");
}

#[test]
fn looking_for_a_field() {
    let fields = vec![Field::CommitHash, Field::RefNames, Field::AuthorName];
    assert!(contains_field(&fields, Field::RefNames));
    assert!(contains_field(&fields, Field::CommitHash));
    assert!(!contains_field(&fields, Field::Summary));
    assert!(!contains_field(&vec![], Field::RefNames));
}
