//! The field resolver: what each field yields for a commit, and how a whole
//! row is resolved, field by field, in the order asked for.

use crate::commit::checked_iso8601;
use crate::commit::object_to_hex_string;
use crate::commit::oid_to_hex_string;
use crate::commit::abbreviates;
use crate::commit::short_id_text;
use crate::commit::CommitRecord;
use crate::commit::DiffStats;
use crate::commit::ShortId;
use crate::commit::Timestamp;
use crate::error::FieldError;
use crate::error::FieldErrorView;
use crate::error::TextField;
use crate::field::Field;
use crate::refs::names_in;
use crate::refs::RefIndex;
use crate::text::decimal_text;
use crate::text::hex_text;
use crate::text::texts;
use crate::text::usize_to_decimal;
use crate::value::row_view;
use crate::value::Value;
use crate::value::ValueView;
use vstd::prelude::*;

verus! {

/// Each hash of a list in full hexadecimal.
pub open spec fn hex_texts(ids: Seq<Vec<u8>>) -> Seq<Seq<char>> {
    Seq::new(ids.len(), |i: int| hex_text(ids[i]@))
}

/// The texts of a list of abbreviated hashes, or the error of the first one
/// that has no text.
pub open spec fn short_ids_text(shorts: Seq<ShortId>) -> Result<Seq<Seq<char>>, FieldErrorView>
    decreases shorts.len(),
{
    if shorts.len() == 0 {
        Ok(Seq::empty())
    } else {
        match short_ids_text(shorts.drop_last()) {
            Err(e) => Err(e),
            Ok(before) => match short_id_text(shorts.last()) {
                Err(e) => Err(e),
                Ok(text) => Ok(before.push(text)),
            },
        }
    }
}

/// A text of the commit as a value, or the error that says it is not valid
/// UTF-8.
pub open spec fn text_value(text: Option<String>, which: TextField) -> Result<
    ValueView,
    FieldErrorView,
> {
    match text {
        Some(s) => Ok(ValueView::Text(s@)),
        None => Err(FieldErrorView::InvalidText(which)),
    }
}

/// An abbreviated hash as a value.
pub open spec fn short_id_value(short: ShortId) -> Result<ValueView, FieldErrorView> {
    match short_id_text(short) {
        Ok(text) => Ok(ValueView::Text(text)),
        Err(e) => Err(e),
    }
}

/// A time in ISO 8601 as a value, or the error for a time that no date
/// stands for.
pub open spec fn iso_time_value(time: Timestamp) -> Result<ValueView, FieldErrorView> {
    if time.representable() {
        Ok(ValueView::Text(time.iso8601()))
    } else {
        Err(FieldErrorView::TimeOutOfRange)
    }
}

/// A count of the diff as text: empty where there is no diff.
pub open spec fn count_text(count: Option<usize>) -> Seq<char> {
    match count {
        Some(n) => decimal_text(n as int),
        None => Seq::empty(),
    }
}

/// What a field yields for a commit, given the diff against the commit of
/// the row before (if there is one) and the ref names that the index holds
/// for the commit.
pub open spec fn resolve_value(
    field: Field,
    commit: CommitRecord,
    stats: Option<DiffStats>,
    names: Seq<Seq<char>>,
) -> Result<ValueView, FieldErrorView> {
    match field {
        Field::CommitHash => Ok(ValueView::Text(hex_text(commit.id@))),
        Field::ShortCommitHash => short_id_value(commit.short_id),
        Field::TreeHash => Ok(ValueView::Text(hex_text(commit.tree_id@))),
        Field::ShortTreeHash => short_id_value(commit.tree_short_id),
        Field::ParentHashes => Ok(ValueView::List(hex_texts(commit.parent_ids@))),
        Field::ShortParentHashes => match short_ids_text(commit.parent_short_ids@) {
            Ok(list) => Ok(ValueView::List(list)),
            Err(e) => Err(e),
        },
        Field::AuthorName => text_value(commit.author_name, TextField::AuthorName),
        Field::AuthorEmail => text_value(commit.author_email, TextField::AuthorEmail),
        Field::AuthorTime => Ok(ValueView::Integer(commit.author_time.seconds as int)),
        Field::AuthorIsoTime => iso_time_value(commit.author_time),
        Field::CommitterTime => Ok(ValueView::Integer(commit.committer_time.seconds as int)),
        Field::CommitterIsoTime => iso_time_value(commit.committer_time),
        Field::RefNames => Ok(ValueView::List(names)),
        Field::Summary => text_value(commit.summary, TextField::Summary),
        Field::Message => text_value(commit.message, TextField::Message),
        Field::FilesChanged => Ok(
            ValueView::Text(
                count_text(
                    match stats {
                        Some(s) => Some(s.files_changed),
                        None => None,
                    },
                ),
            ),
        ),
        Field::Insertions => Ok(
            ValueView::Text(
                count_text(
                    match stats {
                        Some(s) => Some(s.insertions),
                        None => None,
                    },
                ),
            ),
        ),
        Field::Deletions => Ok(
            ValueView::Text(
                count_text(
                    match stats {
                        Some(s) => Some(s.deletions),
                        None => None,
                    },
                ),
            ),
        ),
    }
}

/// The ref names that are still to be had after some fields of a row were
/// resolved: the first `D` takes them all.
pub open spec fn names_left(done: Seq<Field>, names: Seq<Seq<char>>) -> Seq<Seq<char>> {
    if done.contains(Field::RefNames) {
        Seq::empty()
    } else {
        names
    }
}

/// The value at one place of a row.
pub open spec fn value_at(
    fields: Seq<Field>,
    commit: CommitRecord,
    stats: Option<DiffStats>,
    names: Seq<Seq<char>>,
    i: int,
) -> Result<ValueView, FieldErrorView> {
    resolve_value(fields[i], commit, stats, names_left(fields.take(i), names))
}

/// The row of a commit: the value of every field, in order, or the error of
/// the first field that has none.
pub open spec fn row_values(
    fields: Seq<Field>,
    commit: CommitRecord,
    stats: Option<DiffStats>,
    names: Seq<Seq<char>>,
) -> Result<Seq<ValueView>, FieldErrorView>
    decreases fields.len(),
{
    if fields.len() == 0 {
        Ok(Seq::empty())
    } else {
        match row_values(fields.drop_last(), commit, stats, names) {
            Err(e) => Err(e),
            Ok(before) => match resolve_value(
                fields.last(),
                commit,
                stats,
                names_left(fields.drop_last(), names),
            ) {
                Err(e) => Err(e),
                Ok(v) => Ok(before.push(v)),
            },
        }
    }
}

/// The index after a row: drained of the commit where `D` was resolved.
pub open spec fn index_after(
    fields: Seq<Field>,
    index: Map<Seq<u8>, Seq<Seq<char>>>,
    id: Seq<u8>,
) -> Map<Seq<u8>, Seq<Seq<char>>> {
    if fields.contains(Field::RefNames) {
        index.remove(id)
    } else {
        index
    }
}

/// Whether `after` is the index that a failed row leaves: drained of the
/// commit where `D` stood before the field that failed, and as it was
/// otherwise.
pub open spec fn index_after_failure(
    fields: Seq<Field>,
    commit: CommitRecord,
    stats: Option<DiffStats>,
    names: Seq<Seq<char>>,
    index: Map<Seq<u8>, Seq<Seq<char>>>,
    after: Map<Seq<u8>, Seq<Seq<char>>>,
) -> bool {
    exists|n: int|
        {
            &&& 0 <= n < fields.len()
            &&& #[trigger] row_values(fields.take(n), commit, stats, names) is Ok
            &&& row_values(fields.take(n + 1), commit, stats, names) is Err
            &&& after == index_after(fields.take(n), index, commit.id@)
        }
}

/// Writes each hash of a list in full.
fn hex_strings(ids: &Vec<Vec<u8>>) -> (list: Vec<String>)
    ensures
        texts(list@) == hex_texts(ids@),
{
    let mut list: Vec<String> = Vec::new();
    let mut i: usize = 0;
    while i < ids.len()
        invariant
            0 <= i <= ids.len(),
            list@.len() == i,
            forall|j: int| 0 <= j < i ==> (#[trigger] list@[j])@ == hex_text(ids@[j]@),
        decreases ids.len() - i,
    {
        list.push(oid_to_hex_string(ids[i].as_slice()));
        i += 1;
    }
    assert(texts(list@) =~= hex_texts(ids@));
    list
}

/// Gives each abbreviated hash of a list as text, or the first error.
fn short_strings(shorts: &Vec<ShortId>) -> (r: Result<Vec<String>, FieldError>)
    ensures
        match short_ids_text(shorts@) {
            Ok(list) => r is Ok && texts(r->Ok_0@) == list,
            Err(e) => r is Err && r->Err_0@ == e,
        },
{
    let mut list: Vec<String> = Vec::new();
    let mut i: usize = 0;
    assert(shorts@.take(0) =~= Seq::<ShortId>::empty());
    assert(texts(list@) =~= Seq::<Seq<char>>::empty());
    while i < shorts.len()
        invariant
            0 <= i <= shorts.len(),
            short_ids_text(shorts@.take(i as int)) == Ok::<Seq<Seq<char>>, FieldErrorView>(
                texts(list@),
            ),
        decreases shorts.len() - i,
    {
        let ghost before = texts(list@);
        proof {
            assert(shorts@.take(i + 1).drop_last() =~= shorts@.take(i as int));
            assert(shorts@.take(i + 1).last() == shorts@[i as int]);
        }
        match object_to_hex_string(&shorts[i]) {
            Ok(text) => {
                list.push(text);
                assert(texts(list@) =~= before.push(text@));
            },
            Err(e) => {
                proof {
                    lemma_short_ids_error_stays(shorts@, i + 1);
                }
                return Err(e);
            },
        }
        i += 1;
    }
    assert(shorts@.take(i as int) =~= shorts@);
    Ok(list)
}

/// Once a prefix of a list of abbreviated hashes has an error, the whole
/// list has the same.
proof fn lemma_short_ids_error_stays(shorts: Seq<ShortId>, n: int)
    requires
        0 <= n <= shorts.len(),
        short_ids_text(shorts.take(n)) is Err,
    ensures
        short_ids_text(shorts) == short_ids_text(shorts.take(n)),
    decreases shorts.len(),
{
    if n == shorts.len() {
        assert(shorts.take(n) =~= shorts);
    } else {
        assert(shorts.drop_last().take(n) =~= shorts.take(n));
        lemma_short_ids_error_stays(shorts.drop_last(), n);
    }
}

/// Once a prefix of the fields has an error, the whole row has the same.
pub proof fn lemma_row_error_stays(
    fields: Seq<Field>,
    commit: CommitRecord,
    stats: Option<DiffStats>,
    names: Seq<Seq<char>>,
    n: int,
)
    requires
        0 <= n <= fields.len(),
        row_values(fields.take(n), commit, stats, names) is Err,
    ensures
        row_values(fields, commit, stats, names) == row_values(fields.take(n), commit, stats, names),
    decreases fields.len(),
{
    if n == fields.len() {
        assert(fields.take(n) =~= fields);
    } else {
        assert(fields.drop_last().take(n) =~= fields.take(n));
        lemma_row_error_stays(fields.drop_last(), commit, stats, names, n);
    }
}

/// A row has one value for each field, in the order of the fields, repeated
/// fields included, and each value is what its field yields.
pub proof fn lemma_row_follows_fields(
    fields: Seq<Field>,
    commit: CommitRecord,
    stats: Option<DiffStats>,
    names: Seq<Seq<char>>,
)
    requires
        row_values(fields, commit, stats, names) is Ok,
    ensures
        row_values(fields, commit, stats, names)->Ok_0.len() == fields.len(),
        forall|i: int|
            0 <= i < fields.len() ==> #[trigger] value_at(fields, commit, stats, names, i) == Ok::<
                ValueView,
                FieldErrorView,
            >(row_values(fields, commit, stats, names)->Ok_0[i]),
    decreases fields.len(),
{
    if fields.len() > 0 {
        let before = fields.drop_last();
        lemma_row_follows_fields(before, commit, stats, names);
        assert forall|i: int| 0 <= i < fields.len() implies #[trigger] value_at(
            fields,
            commit,
            stats,
            names,
            i,
        ) == Ok::<ValueView, FieldErrorView>(
            row_values(fields, commit, stats, names)->Ok_0[i],
        ) by {
            if i < fields.len() - 1 {
                assert(fields.take(i) =~= before.take(i));
                assert(value_at(before, commit, stats, names, i) == value_at(
                    fields,
                    commit,
                    stats,
                    names,
                    i,
                ));
            } else {
                assert(fields.take(i) =~= before);
            }
        }
    }
}

/// A row fails with the error of its first field that has no value.
pub proof fn lemma_row_fails_at_first_error(
    fields: Seq<Field>,
    commit: CommitRecord,
    stats: Option<DiffStats>,
    names: Seq<Seq<char>>,
)
    requires
        row_values(fields, commit, stats, names) is Err,
    ensures
        exists|i: int|
            {
                &&& 0 <= i < fields.len()
                &&& forall|j: int|
                    0 <= j < i ==> #[trigger] value_at(fields, commit, stats, names, j) is Ok
                &&& #[trigger] value_at(fields, commit, stats, names, i) == Err::<
                    ValueView,
                    FieldErrorView,
                >(row_values(fields, commit, stats, names)->Err_0)
            },
    decreases fields.len(),
{
    let before = fields.drop_last();
    if row_values(before, commit, stats, names) is Err {
        lemma_row_fails_at_first_error(before, commit, stats, names);
        let i = choose|i: int|
            {
                &&& 0 <= i < before.len()
                &&& forall|j: int|
                    0 <= j < i ==> #[trigger] value_at(before, commit, stats, names, j) is Ok
                &&& #[trigger] value_at(before, commit, stats, names, i) == Err::<
                    ValueView,
                    FieldErrorView,
                >(row_values(before, commit, stats, names)->Err_0)
            };
        assert forall|j: int| 0 <= j <= i implies #[trigger] value_at(
            fields,
            commit,
            stats,
            names,
            j,
        ) == value_at(before, commit, stats, names, j) by {
            assert(fields.take(j) =~= before.take(j));
        }
        assert(value_at(fields, commit, stats, names, i) == Err::<ValueView, FieldErrorView>(
            row_values(fields, commit, stats, names)->Err_0,
        ));
    } else {
        lemma_row_follows_fields(before, commit, stats, names);
        let i = fields.len() - 1;
        assert forall|j: int| 0 <= j < i implies #[trigger] value_at(
            fields,
            commit,
            stats,
            names,
            j,
        ) is Ok by {
            assert(fields.take(j) =~= before.take(j));
            assert(value_at(before, commit, stats, names, j) == value_at(
                fields,
                commit,
                stats,
                names,
                j,
            ));
        }
        assert(fields.take(i) =~= before);
        assert(value_at(fields, commit, stats, names, i) == Err::<ValueView, FieldErrorView>(
            row_values(fields, commit, stats, names)->Err_0,
        ));
    }
}

/// Where all abbreviated hashes of a list are text, there is one text for
/// each, and it is that of the hash at the same place.
proof fn lemma_short_ids_ok(shorts: Seq<ShortId>)
    requires
        short_ids_text(shorts) is Ok,
    ensures
        short_ids_text(shorts)->Ok_0.len() == shorts.len(),
        forall|i: int|
            0 <= i < shorts.len() ==> short_id_text(#[trigger] shorts[i]) == Ok::<
                Seq<char>,
                FieldErrorView,
            >(short_ids_text(shorts)->Ok_0[i]),
    decreases shorts.len(),
{
    if shorts.len() > 0 {
        lemma_short_ids_ok(shorts.drop_last());
        assert forall|i: int| 0 <= i < shorts.len() implies short_id_text(#[trigger] shorts[i])
            == Ok::<Seq<char>, FieldErrorView>(short_ids_text(shorts)->Ok_0[i]) by {
            if i < shorts.len() - 1 {
                assert(shorts[i] == shorts.drop_last()[i]);
            }
        }
    }
}

/// For a commit whose abbreviated hashes go with its full ones, what `h`,
/// `t` and `p` yield begins what `H`, `T` and `P` yield: text for text, and
/// in the lists parent for parent.
pub proof fn lemma_short_hashes_begin_full_hashes(
    commit: CommitRecord,
    stats: Option<DiffStats>,
    names: Seq<Seq<char>>,
)
    requires
        commit.consistent(),
    ensures
        resolve_value(Field::ShortCommitHash, commit, stats, names) matches Ok(
            ValueView::Text(short),
        ) ==> resolve_value(Field::CommitHash, commit, stats, names) matches Ok(
            ValueView::Text(full),
        ) && short.is_prefix_of(full),
        resolve_value(Field::ShortTreeHash, commit, stats, names) matches Ok(
            ValueView::Text(short),
        ) ==> resolve_value(Field::TreeHash, commit, stats, names) matches Ok(
            ValueView::Text(full),
        ) && short.is_prefix_of(full),
        resolve_value(Field::ShortParentHashes, commit, stats, names) matches Ok(
            ValueView::List(shorts),
        ) ==> resolve_value(Field::ParentHashes, commit, stats, names) matches Ok(
            ValueView::List(fulls),
        ) && shorts.len() == fulls.len() && forall|i: int|
            0 <= i < shorts.len() ==> (#[trigger] shorts[i]).is_prefix_of(fulls[i]),
{
    if short_ids_text(commit.parent_short_ids@) is Ok {
        lemma_short_ids_ok(commit.parent_short_ids@);
        let shorts = short_ids_text(commit.parent_short_ids@)->Ok_0;
        let fulls = hex_texts(commit.parent_ids@);
        assert forall|i: int| 0 <= i < shorts.len() implies (#[trigger] shorts[i]).is_prefix_of(
            fulls[i],
        ) by {
            assert(abbreviates(commit.parent_short_ids@[i], commit.parent_ids@[i]@));
        }
    }
}

/// Gives a text of the commit as a value.
fn text_or_error(text: &Option<String>, which: TextField) -> (r: Result<Value, FieldError>)
    ensures
        match text_value(*text, which) {
            Ok(v) => r is Ok && r->Ok_0@ == v,
            Err(e) => r is Err && r->Err_0@ == e,
        },
{
    match text {
        Some(s) => Ok(Value::Text(s.clone())),
        None => Err(FieldError::InvalidText(which)),
    }
}

/// Gives an abbreviated hash as a value.
fn short_id_or_error(short: &ShortId) -> (r: Result<Value, FieldError>)
    ensures
        match short_id_value(*short) {
            Ok(v) => r is Ok && r->Ok_0@ == v,
            Err(e) => r is Err && r->Err_0@ == e,
        },
{
    match object_to_hex_string(short) {
        Ok(text) => Ok(Value::Text(text)),
        Err(e) => Err(e),
    }
}

/// Gives a time in ISO 8601 as a value.
fn iso_time_or_error(time: Timestamp) -> (r: Result<Value, FieldError>)
    ensures
        match iso_time_value(time) {
            Ok(v) => r is Ok && r->Ok_0@ == v,
            Err(e) => r is Err && r->Err_0@ == e,
        },
{
    match checked_iso8601(time) {
        Some(text) => Ok(Value::Text(text)),
        None => Err(FieldError::TimeOutOfRange),
    }
}

/// Writes a count of the diff, or nothing where there is no diff.
fn count_string(count: Option<usize>) -> (s: String)
    ensures
        s@ == count_text(count),
{
    match count {
        Some(n) => usize_to_decimal(n),
        None => String::new(),
    }
}

/// Resolves one field for a commit. The ref names are taken out of the
/// index when they are asked for, so that they are reported once.
pub fn resolve(
    field: Field,
    commit: &CommitRecord,
    stats: Option<DiffStats>,
    refs: &mut RefIndex,
) -> (r: Result<Value, FieldError>)
    requires
        old(refs).wf(),
    ensures
        final(refs).wf(),
        final(refs)@ == (if field == Field::RefNames {
            old(refs)@.remove(commit.id@)
        } else {
            old(refs)@
        }),
        match resolve_value(field, *commit, stats, old(refs).names(commit.id@)) {
            Ok(v) => r is Ok && r->Ok_0@ == v,
            Err(e) => r is Err && r->Err_0@ == e,
        },
{
    match field {
        Field::CommitHash => Ok(Value::Text(oid_to_hex_string(commit.id.as_slice()))),
        Field::ShortCommitHash => short_id_or_error(&commit.short_id),
        Field::TreeHash => Ok(Value::Text(oid_to_hex_string(commit.tree_id.as_slice()))),
        Field::ShortTreeHash => short_id_or_error(&commit.tree_short_id),
        Field::ParentHashes => Ok(Value::List(hex_strings(&commit.parent_ids))),
        Field::ShortParentHashes => match short_strings(&commit.parent_short_ids) {
            Ok(list) => Ok(Value::List(list)),
            Err(e) => Err(e),
        },
        Field::AuthorName => text_or_error(&commit.author_name, TextField::AuthorName),
        Field::AuthorEmail => text_or_error(&commit.author_email, TextField::AuthorEmail),
        Field::AuthorTime => Ok(Value::Integer(commit.author_time.seconds)),
        Field::AuthorIsoTime => iso_time_or_error(commit.author_time),
        Field::CommitterTime => Ok(Value::Integer(commit.committer_time.seconds)),
        Field::CommitterIsoTime => iso_time_or_error(commit.committer_time),
        Field::RefNames => Ok(Value::List(refs.take(commit.id.as_slice()))),
        Field::Summary => text_or_error(&commit.summary, TextField::Summary),
        Field::Message => text_or_error(&commit.message, TextField::Message),
        Field::FilesChanged => Ok(
            Value::Text(
                count_string(
                    match stats {
                        Some(s) => Some(s.files_changed),
                        None => None,
                    },
                ),
            ),
        ),
        Field::Insertions => Ok(
            Value::Text(
                count_string(
                    match stats {
                        Some(s) => Some(s.insertions),
                        None => None,
                    },
                ),
            ),
        ),
        Field::Deletions => Ok(
            Value::Text(
                count_string(
                    match stats {
                        Some(s) => Some(s.deletions),
                        None => None,
                    },
                ),
            ),
        ),
    }
}

/// Resolves every field of a row, in order, and stops at the first that
/// fails.
pub fn resolve_row(
    fields: &Vec<Field>,
    commit: &CommitRecord,
    stats: Option<DiffStats>,
    refs: &mut RefIndex,
) -> (r: Result<Vec<Value>, FieldError>)
    requires
        old(refs).wf(),
    ensures
        final(refs).wf(),
        match row_values(fields@, *commit, stats, old(refs).names(commit.id@)) {
            Ok(row) => {
                &&& r is Ok
                &&& row_view(r->Ok_0@) == row
                &&& final(refs)@ == index_after(fields@, old(refs)@, commit.id@)
            },
            Err(e) => {
                &&& r is Err
                &&& r->Err_0@ == e
                &&& index_after_failure(
                    fields@,
                    *commit,
                    stats,
                    old(refs).names(commit.id@),
                    old(refs)@,
                    final(refs)@,
                )
            },
        },
{
    let ghost names = refs.names(commit.id@);
    let ghost index = refs@;
    let mut row: Vec<Value> = Vec::new();
    let mut i: usize = 0;
    proof {
        assert(fields@.take(0) =~= Seq::<Field>::empty());
        assert(row_view(row@) =~= Seq::<ValueView>::empty());
    }
    while i < fields.len()
        invariant
            0 <= i <= fields.len(),
            refs.wf(),
            index == old(refs)@,
            names == names_in(index, commit.id@),
            refs@ == index_after(fields@.take(i as int), index, commit.id@),
            row_values(fields@.take(i as int), *commit, stats, names) == Ok::<
                Seq<ValueView>,
                FieldErrorView,
            >(row_view(row@)),
        decreases fields.len() - i,
    {
        let ghost before = row_view(row@);
        let ghost done = fields@.take(i as int);
        proof {
            assert(fields@.take(i + 1).drop_last() =~= done);
            assert(fields@.take(i + 1).last() == fields@[i as int]);
            assert(refs.names(commit.id@) =~= names_left(done, names));
            assert(fields@.take(i + 1) =~= done.push(fields@[i as int]));
            assert(fields@.take(i + 1).contains(Field::RefNames) <==> (done.contains(
                Field::RefNames,
            ) || fields@[i as int] == Field::RefNames)) by {
                if done.contains(Field::RefNames) {
                    let j = choose|j: int| 0 <= j < done.len() && done[j] == Field::RefNames;
                    assert(fields@.take(i + 1)[j] == Field::RefNames);
                }
                if fields@[i as int] == Field::RefNames {
                    assert(fields@.take(i + 1)[i as int] == Field::RefNames);
                }
            }
            assert(index.remove(commit.id@).remove(commit.id@) =~= index.remove(commit.id@));
        }
        match resolve(fields[i], commit, stats, refs) {
            Ok(v) => {
                row.push(v);
                assert(row_view(row@) =~= before.push(v@));
            },
            Err(e) => {
                proof {
                    lemma_row_error_stays(fields@, *commit, stats, names, i + 1);
                    assert(row_values(done, *commit, stats, names) is Ok);
                    assert(row_values(fields@.take(i + 1), *commit, stats, names) is Err);
                    assert(refs@ == index_after(done, index, commit.id@));
                }
                return Err(e);
            },
        }
        i += 1;
    }
    assert(fields@.take(i as int) =~= fields@);
    Ok(row)
}

} // verus!
