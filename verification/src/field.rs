//! The vocabulary of field codes: which are resolved, which are turned down
//! and why, and how a comma-separated list of them is read.

use crate::error::FieldError;
use crate::error::FieldErrorView;
use crate::text::join_text;
use crate::text::str_equal;
use crate::text::texts;
use vstd::prelude::*;

verus! {

/// A field of a commit that a report can hold.
#[derive(Debug, Clone, Copy, PartialEq, Eq, Structural)]
pub enum Field {
    /// `H`: the commit's full hash.
    CommitHash,
    /// `h`: the commit's abbreviated hash.
    ShortCommitHash,
    /// `T`: the full hash of the commit's tree.
    TreeHash,
    /// `t`: the abbreviated hash of the commit's tree.
    ShortTreeHash,
    /// `P`: the full hashes of the parents.
    ParentHashes,
    /// `p`: the abbreviated hashes of the parents.
    ShortParentHashes,
    /// `an`: the author's name.
    AuthorName,
    /// `ae`: the author's email address.
    AuthorEmail,
    /// `at`: the author's time, in seconds since the epoch.
    AuthorTime,
    /// `aI`: the author's time in ISO 8601, at its own offset from UTC.
    AuthorIsoTime,
    /// `ct`: the committer's time, in seconds since the epoch.
    CommitterTime,
    /// `cI`: the committer's time in ISO 8601, at its own offset from UTC.
    CommitterIsoTime,
    /// `D`: the short names of the refs that point at the commit.
    RefNames,
    /// `s`: the first line of the message.
    Summary,
    /// `B`: the whole message.
    Message,
    /// `df`: how many files differ from the commit of the row before.
    FilesChanged,
    /// `di`: how many lines were added since the commit of the row before.
    Insertions,
    /// `dd`: how many lines were removed since the commit of the row before.
    Deletions,
}

/// Why a field code is turned down.
#[derive(Debug, Clone, Copy, PartialEq, Eq, Structural)]
pub enum Rejection {
    /// `aN`, `aE`: identities are not mapped through a mailmap.
    Mailmap,
    /// `ad`, `aD`, `ar`, `ai`: the author's date is not formatted.
    AuthorDate,
    /// `cd`, `cD`, `cr`, `ci`: the committer's date is not formatted.
    CommitterDate,
    /// `d`: ref names are not formatted.
    RefFormat,
    /// `b`: the body is not cut out of the message.
    BodyOnly,
    /// `N`: notes are not read.
    Notes,
    /// `GG`, `G?`, `GS`, `GK`: signatures are not checked.
    Signatures,
    /// Any other code.
    Unknown,
}

/// What a field code turns out to be.
#[derive(Debug, Clone, Copy, PartialEq, Eq, Structural)]
pub enum FieldKind {
    Supported(Field),
    Unsupported(Rejection),
}

/// The code by which a field is asked for, which is also its key or column
/// name in the output.
pub open spec fn field_code(field: Field) -> Seq<char> {
    match field {
        Field::CommitHash => "H"@,
        Field::ShortCommitHash => "h"@,
        Field::TreeHash => "T"@,
        Field::ShortTreeHash => "t"@,
        Field::ParentHashes => "P"@,
        Field::ShortParentHashes => "p"@,
        Field::AuthorName => "an"@,
        Field::AuthorEmail => "ae"@,
        Field::AuthorTime => "at"@,
        Field::AuthorIsoTime => "aI"@,
        Field::CommitterTime => "ct"@,
        Field::CommitterIsoTime => "cI"@,
        Field::RefNames => "D"@,
        Field::Summary => "s"@,
        Field::Message => "B"@,
        Field::FilesChanged => "df"@,
        Field::Insertions => "di"@,
        Field::Deletions => "dd"@,
    }
}

/// The field that a code asks for, if it asks for one.
pub open spec fn supported_field(code: Seq<char>) -> Option<Field> {
    if code == "H"@ {
        Some(Field::CommitHash)
    } else if code == "h"@ {
        Some(Field::ShortCommitHash)
    } else if code == "T"@ {
        Some(Field::TreeHash)
    } else if code == "t"@ {
        Some(Field::ShortTreeHash)
    } else if code == "P"@ {
        Some(Field::ParentHashes)
    } else if code == "p"@ {
        Some(Field::ShortParentHashes)
    } else if code == "an"@ {
        Some(Field::AuthorName)
    } else if code == "ae"@ {
        Some(Field::AuthorEmail)
    } else if code == "at"@ {
        Some(Field::AuthorTime)
    } else if code == "aI"@ {
        Some(Field::AuthorIsoTime)
    } else if code == "ct"@ {
        Some(Field::CommitterTime)
    } else if code == "cI"@ {
        Some(Field::CommitterIsoTime)
    } else if code == "D"@ {
        Some(Field::RefNames)
    } else if code == "s"@ {
        Some(Field::Summary)
    } else if code == "B"@ {
        Some(Field::Message)
    } else if code == "df"@ {
        Some(Field::FilesChanged)
    } else if code == "di"@ {
        Some(Field::Insertions)
    } else if code == "dd"@ {
        Some(Field::Deletions)
    } else {
        None
    }
}

/// Why a code that asks for no field is turned down.
pub open spec fn rejection_of(code: Seq<char>) -> Rejection {
    if code == "aN"@ || code == "aE"@ {
        Rejection::Mailmap
    } else if code == "ad"@ || code == "aD"@ || code == "ar"@ || code == "ai"@ {
        Rejection::AuthorDate
    } else if code == "cd"@ || code == "cD"@ || code == "cr"@ || code == "ci"@ {
        Rejection::CommitterDate
    } else if code == "d"@ {
        Rejection::RefFormat
    } else if code == "b"@ {
        Rejection::BodyOnly
    } else if code == "N"@ {
        Rejection::Notes
    } else if code == "GG"@ || code == "G?"@ || code == "GS"@ || code == "GK"@ {
        Rejection::Signatures
    } else {
        Rejection::Unknown
    }
}

/// What a code is: a field, or turned down for a reason.
pub open spec fn kind_of(code: Seq<char>) -> FieldKind {
    match supported_field(code) {
        Some(field) => FieldKind::Supported(field),
        None => FieldKind::Unsupported(rejection_of(code)),
    }
}

/// What is said of a code that is turned down.
pub open spec fn rejection_text(rejection: Rejection) -> Seq<char> {
    match rejection {
        Rejection::Mailmap =>
            "Mailmaps not currently supported, consider using `an`/`ae` instead of `aN`/`aE`"@,
        Rejection::AuthorDate =>
            "Formatted dates not supported, use `aI` and format the date yourself"@,
        Rejection::CommitterDate =>
            "Formatted dates not supported, use `cI` and format the date yourself"@,
        Rejection::RefFormat =>
            "Formatted ref names not supported, use `D` and format the names yourself"@,
        Rejection::BodyOnly => "Body not supported, use `B` and extract the body yourself"@,
        Rejection::Notes => "Notes not currently supported"@,
        Rejection::Signatures => "Signatures not currently supported"@,
        Rejection::Unknown => "Not found"@,
    }
}

/// The pieces of a text between its separators: one more than there are
/// separators, an empty text giving one empty piece.
pub open spec fn split_text(s: Seq<char>, sep: char) -> Seq<Seq<char>>
    decreases s.len(),
{
    if s.len() == 0 {
        seq![Seq::empty()]
    } else {
        let before = split_text(s.drop_last(), sep);
        if s.last() == sep {
            before.push(Seq::empty())
        } else {
            before.drop_last().push(before.last().push(s.last()))
        }
    }
}

/// Splitting is the inverse of joining: the pieces, written with the
/// separator between them, give the text back; there is at least one piece,
/// and the separator is in none.
pub proof fn lemma_split_joins_back(s: Seq<char>, sep: char)
    ensures
        split_text(s, sep).len() >= 1,
        join_text(split_text(s, sep), seq![sep]) == s,
        forall|i: int|
            0 <= i < split_text(s, sep).len() ==> !(#[trigger] split_text(s, sep)[i]).contains(sep),
    decreases s.len(),
{
    let pieces = split_text(s, sep);
    if s.len() == 0 {
        assert(join_text(pieces, seq![sep]) =~= s);
        assert(!pieces[0].contains(sep));
    } else {
        let before = split_text(s.drop_last(), sep);
        lemma_split_joins_back(s.drop_last(), sep);
        if s.last() == sep {
            assert(pieces.drop_last() =~= before);
            assert(join_text(pieces, seq![sep]) =~= s.drop_last() + seq![sep] + Seq::<char>::empty());
            assert(join_text(pieces, seq![sep]) =~= s);
            assert forall|i: int| 0 <= i < pieces.len() implies !(#[trigger] pieces[i]).contains(
                sep,
            ) by {
                if i < before.len() {
                    assert(pieces[i] == before[i]);
                }
            }
        } else {
            let grown = before.last().push(s.last());
            assert(pieces.last() == grown);
            if before.len() == 1 {
                assert(join_text(before, seq![sep]) == before[0]);
                assert(join_text(pieces, seq![sep]) =~= s.drop_last().push(s.last()));
            } else {
                assert(pieces.drop_last() =~= before.drop_last());
                assert(join_text(pieces, seq![sep]) =~= (join_text(before.drop_last(), seq![sep])
                    + seq![sep] + before.last()).push(s.last()));
                assert(join_text(pieces, seq![sep]) =~= s.drop_last().push(s.last()));
            }
            assert(s.drop_last().push(s.last()) =~= s);
            assert forall|i: int| 0 <= i < pieces.len() implies !(#[trigger] pieces[i]).contains(
                sep,
            ) by {
                if i < before.len() - 1 {
                    assert(pieces[i] == before[i]);
                } else {
                    assert(!before.last().contains(sep));
                    if grown.contains(sep) {
                        let k = choose|k: int| 0 <= k < grown.len() && grown[k] == sep;
                        if k < before.last().len() {
                            assert(before.last()[k] == sep);
                        }
                    }
                }
            }
        }
    }
}

/// The codes of a field list, in the order in which they were written.
pub open spec fn codes_of(list: Seq<char>) -> Seq<Seq<char>> {
    split_text(list, ',')
}

impl Field {
    /// The field's code.
    pub fn code(self) -> (code: &'static str)
        ensures
            code@ == field_code(self),
    {
        match self {
            Field::CommitHash => "H",
            Field::ShortCommitHash => "h",
            Field::TreeHash => "T",
            Field::ShortTreeHash => "t",
            Field::ParentHashes => "P",
            Field::ShortParentHashes => "p",
            Field::AuthorName => "an",
            Field::AuthorEmail => "ae",
            Field::AuthorTime => "at",
            Field::AuthorIsoTime => "aI",
            Field::CommitterTime => "ct",
            Field::CommitterIsoTime => "cI",
            Field::RefNames => "D",
            Field::Summary => "s",
            Field::Message => "B",
            Field::FilesChanged => "df",
            Field::Insertions => "di",
            Field::Deletions => "dd",
        }
    }
}

impl Rejection {
    /// The reason in words, with the code to use instead where there is one.
    pub fn reason(self) -> (reason: &'static str)
        ensures
            reason@ == rejection_text(self),
    {
        match self {
            Rejection::Mailmap =>
                "Mailmaps not currently supported, consider using `an`/`ae` instead of `aN`/`aE`",
            Rejection::AuthorDate =>
                "Formatted dates not supported, use `aI` and format the date yourself",
            Rejection::CommitterDate =>
                "Formatted dates not supported, use `cI` and format the date yourself",
            Rejection::RefFormat =>
                "Formatted ref names not supported, use `D` and format the names yourself",
            Rejection::BodyOnly => "Body not supported, use `B` and extract the body yourself",
            Rejection::Notes => "Notes not currently supported",
            Rejection::Signatures => "Signatures not currently supported",
            Rejection::Unknown => "Not found",
        }
    }
}

/// Looks up a code among the fields.
fn lookup_field(code: &str) -> (field: Option<Field>)
    ensures
        field == supported_field(code@),
{
    if str_equal(code, "H") {
        Some(Field::CommitHash)
    } else if str_equal(code, "h") {
        Some(Field::ShortCommitHash)
    } else if str_equal(code, "T") {
        Some(Field::TreeHash)
    } else if str_equal(code, "t") {
        Some(Field::ShortTreeHash)
    } else if str_equal(code, "P") {
        Some(Field::ParentHashes)
    } else if str_equal(code, "p") {
        Some(Field::ShortParentHashes)
    } else if str_equal(code, "an") {
        Some(Field::AuthorName)
    } else if str_equal(code, "ae") {
        Some(Field::AuthorEmail)
    } else if str_equal(code, "at") {
        Some(Field::AuthorTime)
    } else if str_equal(code, "aI") {
        Some(Field::AuthorIsoTime)
    } else if str_equal(code, "ct") {
        Some(Field::CommitterTime)
    } else if str_equal(code, "cI") {
        Some(Field::CommitterIsoTime)
    } else if str_equal(code, "D") {
        Some(Field::RefNames)
    } else if str_equal(code, "s") {
        Some(Field::Summary)
    } else if str_equal(code, "B") {
        Some(Field::Message)
    } else if str_equal(code, "df") {
        Some(Field::FilesChanged)
    } else if str_equal(code, "di") {
        Some(Field::Insertions)
    } else if str_equal(code, "dd") {
        Some(Field::Deletions)
    } else {
        None
    }
}

/// Finds the reason for which a code that is no field is turned down.
fn lookup_rejection(code: &str) -> (rejection: Rejection)
    ensures
        rejection == rejection_of(code@),
{
    if str_equal(code, "aN") || str_equal(code, "aE") {
        Rejection::Mailmap
    } else if str_equal(code, "ad") || str_equal(code, "aD") || str_equal(code, "ar")
        || str_equal(code, "ai") {
        Rejection::AuthorDate
    } else if str_equal(code, "cd") || str_equal(code, "cD") || str_equal(code, "cr")
        || str_equal(code, "ci") {
        Rejection::CommitterDate
    } else if str_equal(code, "d") {
        Rejection::RefFormat
    } else if str_equal(code, "b") {
        Rejection::BodyOnly
    } else if str_equal(code, "N") {
        Rejection::Notes
    } else if str_equal(code, "GG") || str_equal(code, "G?") || str_equal(code, "GS")
        || str_equal(code, "GK") {
        Rejection::Signatures
    } else {
        Rejection::Unknown
    }
}

/// Says what a field code is.
pub fn classify(code: &str) -> (kind: FieldKind)
    ensures
        kind == kind_of(code@),
{
    match lookup_field(code) {
        Some(field) => FieldKind::Supported(field),
        None => FieldKind::Unsupported(lookup_rejection(code)),
    }
}

/// Cuts a field list at its commas.
pub fn split_codes(list: &str) -> (codes: Vec<String>)
    ensures
        texts(codes@) == codes_of(list@),
{
    let n = list.unicode_len();
    let mut codes: Vec<String> = Vec::new();
    let mut start: usize = 0;
    let mut i: usize = 0;
    proof {
        assert(list@.subrange(0, 0) =~= Seq::<char>::empty());
        assert(texts(codes@).push(list@.subrange(0, 0)) =~= seq![
            Seq::<char>::empty(),
        ]);
    }
    while i < n
        invariant
            n == list@.len(),
            0 <= start <= i <= n,
            split_text(list@.subrange(0, i as int), ',') == texts(codes@).push(
                list@.subrange(start as int, i as int),
            ),
        decreases n - i,
    {
        let ghost upto = list@.subrange(0, i + 1);
        assert(upto.drop_last() =~= list@.subrange(0, i as int));
        assert(upto.last() == list@[i as int]);
        let ghost before = texts(codes@);
        let ghost piece = list@.subrange(start as int, i as int);
        if list.get_char(i) == ',' {
            codes.push(list.substring_char(start, i).to_owned());
            start = i + 1;
            assert(texts(codes@) =~= before.push(piece));
            assert(list@.subrange(start as int, i + 1) =~= Seq::<char>::empty());
        } else {
            assert(before.push(piece).drop_last() =~= before);
            assert(list@.subrange(start as int, i + 1) =~= piece.push(list@[i as int]));
        }
        i += 1;
    }
    let ghost before = texts(codes@);
    codes.push(list.substring_char(start, n).to_owned());
    assert(list@.subrange(0, n as int) =~= list@);
    assert(texts(codes@) =~= before.push(list@.subrange(start as int, n as int)));
    codes
}

/// The fields that a list of codes asks for, or the error for the first code
/// that asks for none.
pub open spec fn fields_of_codes(codes: Seq<Seq<char>>) -> Result<Seq<Field>, FieldErrorView>
    decreases codes.len(),
{
    if codes.len() == 0 {
        Ok(Seq::empty())
    } else {
        match fields_of_codes(codes.drop_last()) {
            Err(e) => Err(e),
            Ok(before) => match supported_field(codes.last()) {
                Some(field) => Ok(before.push(field)),
                None => Err(
                    FieldErrorView::InvalidFormat {
                        code: codes.last(),
                        rejection: rejection_of(codes.last()),
                    },
                ),
            },
        }
    }
}

/// The fields that a comma-separated list asks for, in its order and with
/// its repetitions, or the error for its first code that asks for none.
pub open spec fn requested_fields(list: Seq<char>) -> Result<Seq<Field>, FieldErrorView> {
    fields_of_codes(codes_of(list))
}

/// Once a prefix of the codes has an error, the whole list has the same.
proof fn lemma_codes_error_stays(codes: Seq<Seq<char>>, n: int)
    requires
        0 <= n <= codes.len(),
        fields_of_codes(codes.take(n)) is Err,
    ensures
        fields_of_codes(codes) == fields_of_codes(codes.take(n)),
    decreases codes.len(),
{
    if n == codes.len() {
        assert(codes.take(n) =~= codes);
    } else {
        assert(codes.drop_last().take(n) =~= codes.take(n));
        lemma_codes_error_stays(codes.drop_last(), n);
    }
}

/// Reads a field list: every code must ask for a field, and the first that
/// does not is reported with its reason.
pub fn parse_fields(list: &str) -> (r: Result<Vec<Field>, FieldError>)
    ensures
        match requested_fields(list@) {
            Ok(fields) => r is Ok && r->Ok_0@ == fields,
            Err(e) => r is Err && r->Err_0@ == e,
        },
{
    let codes = split_codes(list);
    let ghost all = codes_of(list@);
    let mut fields: Vec<Field> = Vec::new();
    let mut i: usize = 0;
    assert(all.take(0) =~= Seq::<Seq<char>>::empty());
    while i < codes.len()
        invariant
            0 <= i <= codes.len(),
            texts(codes@) == all,
            all == codes_of(list@),
            fields_of_codes(all.take(i as int)) == Ok::<Seq<Field>, FieldErrorView>(fields@),
        decreases codes.len() - i,
    {
        proof {
            assert(all[i as int] == codes@[i as int]@);
            assert(all.take(i + 1).drop_last() =~= all.take(i as int));
            assert(all.take(i + 1).last() == all[i as int]);
        }
        match classify(codes[i].as_str()) {
            FieldKind::Supported(field) => {
                fields.push(field);
            },
            FieldKind::Unsupported(rejection) => {
                let e = FieldError::InvalidFormat { code: codes[i].clone(), rejection };
                proof {
                    lemma_codes_error_stays(all, i + 1);
                }
                return Err(e);
            },
        }
        i += 1;
    }
    assert(all.take(i as int) =~= all);
    Ok(fields)
}

/// Where a list is read, there is one field for each code, in the order of
/// the codes, repeated codes included, and each code asks for its field.
pub proof fn lemma_fields_follow_codes(list: Seq<char>)
    requires
        requested_fields(list) is Ok,
    ensures
        requested_fields(list)->Ok_0.len() == codes_of(list).len(),
        forall|i: int|
            0 <= i < codes_of(list).len() ==> supported_field(#[trigger] codes_of(list)[i]) == Some(
                requested_fields(list)->Ok_0[i],
            ),
{
    lemma_fields_of_codes_ok(codes_of(list));
}

proof fn lemma_fields_of_codes_ok(codes: Seq<Seq<char>>)
    requires
        fields_of_codes(codes) is Ok,
    ensures
        fields_of_codes(codes)->Ok_0.len() == codes.len(),
        forall|i: int|
            0 <= i < codes.len() ==> supported_field(#[trigger] codes[i]) == Some(
                fields_of_codes(codes)->Ok_0[i],
            ),
    decreases codes.len(),
{
    if codes.len() > 0 {
        lemma_fields_of_codes_ok(codes.drop_last());
        assert forall|i: int| 0 <= i < codes.len() implies supported_field(#[trigger] codes[i])
            == Some(fields_of_codes(codes)->Ok_0[i]) by {
            if i < codes.len() - 1 {
                assert(codes[i] == codes.drop_last()[i]);
            }
        }
    }
}

/// Where a list is not read, the error names its first code that asks for
/// no field, with the reason for which that code is turned down.
pub proof fn lemma_first_unsupported_code_fails(list: Seq<char>)
    requires
        requested_fields(list) is Err,
    ensures
        exists|i: int|
            {
                &&& 0 <= i < codes_of(list).len()
                &&& forall|j: int|
                    0 <= j < i ==> supported_field(#[trigger] codes_of(list)[j]) is Some
                &&& supported_field(#[trigger] codes_of(list)[i]) is None
                &&& requested_fields(list)->Err_0 == (FieldErrorView::InvalidFormat {
                    code: codes_of(list)[i],
                    rejection: rejection_of(codes_of(list)[i]),
                })
            },
{
    lemma_fields_of_codes_err(codes_of(list));
}

proof fn lemma_fields_of_codes_err(codes: Seq<Seq<char>>)
    requires
        fields_of_codes(codes) is Err,
    ensures
        exists|i: int|
            {
                &&& 0 <= i < codes.len()
                &&& forall|j: int| 0 <= j < i ==> supported_field(#[trigger] codes[j]) is Some
                &&& supported_field(#[trigger] codes[i]) is None
                &&& fields_of_codes(codes)->Err_0 == (FieldErrorView::InvalidFormat {
                    code: codes[i],
                    rejection: rejection_of(codes[i]),
                })
            },
    decreases codes.len(),
{
    let before = codes.drop_last();
    if fields_of_codes(before) is Err {
        lemma_fields_of_codes_err(before);
        let i = choose|i: int|
            {
                &&& 0 <= i < before.len()
                &&& forall|j: int| 0 <= j < i ==> supported_field(#[trigger] before[j]) is Some
                &&& supported_field(#[trigger] before[i]) is None
                &&& fields_of_codes(before)->Err_0 == (FieldErrorView::InvalidFormat {
                    code: before[i],
                    rejection: rejection_of(before[i]),
                })
            };
        assert(codes[i] == before[i]);
        assert forall|j: int| 0 <= j < i implies supported_field(#[trigger] codes[j]) is Some by {
            assert(codes[j] == before[j]);
        }
    } else {
        lemma_fields_of_codes_ok(before);
        let i = codes.len() - 1;
        assert forall|j: int| 0 <= j < i implies supported_field(#[trigger] codes[j]) is Some by {
            assert(codes[j] == before[j]);
        }
        assert(supported_field(codes[i]) is None);
    }
}

/// All codes that ask for a field have their list read.
pub proof fn lemma_supported_codes_are_read(list: Seq<char>)
    requires
        forall|i: int|
            0 <= i < codes_of(list).len() ==> supported_field(#[trigger] codes_of(list)[i]) is Some,
    ensures
        requested_fields(list) is Ok,
{
    if requested_fields(list) is Err {
        lemma_first_unsupported_code_fails(list);
    }
}

/// What the literal codes hold, character by character.
proof fn lemma_code_literals()
    ensures
        "H"@.len() == 1 && "H"@[0] == 'H',
        "h"@.len() == 1 && "h"@[0] == 'h',
        "T"@.len() == 1 && "T"@[0] == 'T',
        "t"@.len() == 1 && "t"@[0] == 't',
        "P"@.len() == 1 && "P"@[0] == 'P',
        "p"@.len() == 1 && "p"@[0] == 'p',
        "an"@.len() == 2 && "an"@[0] == 'a' && "an"@[1] == 'n',
        "ae"@.len() == 2 && "ae"@[0] == 'a' && "ae"@[1] == 'e',
        "at"@.len() == 2 && "at"@[0] == 'a' && "at"@[1] == 't',
        "aI"@.len() == 2 && "aI"@[0] == 'a' && "aI"@[1] == 'I',
        "ct"@.len() == 2 && "ct"@[0] == 'c' && "ct"@[1] == 't',
        "cI"@.len() == 2 && "cI"@[0] == 'c' && "cI"@[1] == 'I',
        "D"@.len() == 1 && "D"@[0] == 'D',
        "s"@.len() == 1 && "s"@[0] == 's',
        "B"@.len() == 1 && "B"@[0] == 'B',
        "df"@.len() == 2 && "df"@[0] == 'd' && "df"@[1] == 'f',
        "di"@.len() == 2 && "di"@[0] == 'd' && "di"@[1] == 'i',
        "dd"@.len() == 2 && "dd"@[0] == 'd' && "dd"@[1] == 'd',
        "aN"@.len() == 2 && "aN"@[0] == 'a' && "aN"@[1] == 'N',
        "aE"@.len() == 2 && "aE"@[0] == 'a' && "aE"@[1] == 'E',
        "ad"@.len() == 2 && "ad"@[0] == 'a' && "ad"@[1] == 'd',
        "aD"@.len() == 2 && "aD"@[0] == 'a' && "aD"@[1] == 'D',
        "ar"@.len() == 2 && "ar"@[0] == 'a' && "ar"@[1] == 'r',
        "ai"@.len() == 2 && "ai"@[0] == 'a' && "ai"@[1] == 'i',
        "cd"@.len() == 2 && "cd"@[0] == 'c' && "cd"@[1] == 'd',
        "cD"@.len() == 2 && "cD"@[0] == 'c' && "cD"@[1] == 'D',
        "cr"@.len() == 2 && "cr"@[0] == 'c' && "cr"@[1] == 'r',
        "ci"@.len() == 2 && "ci"@[0] == 'c' && "ci"@[1] == 'i',
        "d"@.len() == 1 && "d"@[0] == 'd',
        "b"@.len() == 1 && "b"@[0] == 'b',
        "N"@.len() == 1 && "N"@[0] == 'N',
        "GG"@.len() == 2 && "GG"@[0] == 'G' && "GG"@[1] == 'G',
        "G?"@.len() == 2 && "G?"@[0] == 'G' && "G?"@[1] == '?',
        "GS"@.len() == 2 && "GS"@[0] == 'G' && "GS"@[1] == 'S',
        "GK"@.len() == 2 && "GK"@[0] == 'G' && "GK"@[1] == 'K',
{
    reveal_strlit("H");
    reveal_strlit("h");
    reveal_strlit("T");
    reveal_strlit("t");
    reveal_strlit("P");
    reveal_strlit("p");
    reveal_strlit("an");
    reveal_strlit("ae");
    reveal_strlit("at");
    reveal_strlit("aI");
    reveal_strlit("ct");
    reveal_strlit("cI");
    reveal_strlit("D");
    reveal_strlit("s");
    reveal_strlit("B");
    reveal_strlit("df");
    reveal_strlit("di");
    reveal_strlit("dd");
    reveal_strlit("aN");
    reveal_strlit("aE");
    reveal_strlit("ad");
    reveal_strlit("aD");
    reveal_strlit("ar");
    reveal_strlit("ai");
    reveal_strlit("cd");
    reveal_strlit("cD");
    reveal_strlit("cr");
    reveal_strlit("ci");
    reveal_strlit("d");
    reveal_strlit("b");
    reveal_strlit("N");
    reveal_strlit("GG");
    reveal_strlit("G?");
    reveal_strlit("GS");
    reveal_strlit("GK");
}

/// Every field is asked for by its own code, and by no other field's.
pub proof fn lemma_code_names_its_field(field: Field)
    ensures
        supported_field(field_code(field)) == Some(field),
{
    lemma_code_literals();
}

/// The codes that are known and turned down: each asks for no field, and
/// each has its reason.
pub proof fn lemma_disallowed_codes()
    ensures
        kind_of("aN"@) == FieldKind::Unsupported(Rejection::Mailmap),
        kind_of("aE"@) == FieldKind::Unsupported(Rejection::Mailmap),
        kind_of("ad"@) == FieldKind::Unsupported(Rejection::AuthorDate),
        kind_of("aD"@) == FieldKind::Unsupported(Rejection::AuthorDate),
        kind_of("ar"@) == FieldKind::Unsupported(Rejection::AuthorDate),
        kind_of("ai"@) == FieldKind::Unsupported(Rejection::AuthorDate),
        kind_of("cd"@) == FieldKind::Unsupported(Rejection::CommitterDate),
        kind_of("cD"@) == FieldKind::Unsupported(Rejection::CommitterDate),
        kind_of("cr"@) == FieldKind::Unsupported(Rejection::CommitterDate),
        kind_of("ci"@) == FieldKind::Unsupported(Rejection::CommitterDate),
        kind_of("d"@) == FieldKind::Unsupported(Rejection::RefFormat),
        kind_of("b"@) == FieldKind::Unsupported(Rejection::BodyOnly),
        kind_of("N"@) == FieldKind::Unsupported(Rejection::Notes),
        kind_of("GG"@) == FieldKind::Unsupported(Rejection::Signatures),
        kind_of("G?"@) == FieldKind::Unsupported(Rejection::Signatures),
        kind_of("GS"@) == FieldKind::Unsupported(Rejection::Signatures),
        kind_of("GK"@) == FieldKind::Unsupported(Rejection::Signatures),
{
    lemma_code_literals();
}

/// Whether a field is among those asked for.
pub fn contains_field(fields: &Vec<Field>, field: Field) -> (found: bool)
    ensures
        found == fields@.contains(field),
{
    let mut i: usize = 0;
    while i < fields.len()
        invariant
            0 <= i <= fields.len(),
            forall|j: int| 0 <= j < i ==> fields@[j] != field,
        decreases fields.len() - i,
    {
        if fields[i] == field {
            return true;
        }
        i += 1;
    }
    false
}

} // verus!
