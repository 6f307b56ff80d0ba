//! The walk over the commits of a range: one step for each commit, in the
//! order in which the repository hands them over. A step resolves the row
//! of the commit and writes its lines; the walk remembers the commit before
//! and what is left of the ref index.

use crate::commit::CommitRecord;
use crate::commit::DiffStats;
use crate::error::FieldError;
use crate::field::contains_field;
use crate::field::parse_fields;
use crate::field::requested_fields;
use crate::field::Field;
use crate::format::OutputFormat;
use crate::refs::drained;
use crate::refs::index_of;
use crate::refs::RefEntry;
use crate::refs::RefIndex;
use crate::resolve::index_after;
use crate::resolve::index_after_failure;
use crate::resolve::lemma_row_follows_fields;
use crate::resolve::resolve_row;
use crate::resolve::row_values;
use crate::resolve::value_at;
use crate::text::texts;
use crate::value::csv_header;
use crate::value::csv_header_text;
use crate::value::csv_row;
use crate::value::csv_row_text;
use crate::value::json_line;
use crate::value::json_line_text;
use crate::value::row_view;
use crate::value::ValueView;
use vstd::prelude::*;
use vstd::slice::slice_to_vec;

verus! {

/// A walk in progress.
#[derive(Debug)]
pub struct CommitWalk {
    /// The fields of every row, in the order asked for.
    pub fields: Vec<Field>,
    /// How the rows are written.
    pub format: OutputFormat,
    /// The ref names that were not reported yet.
    pub refs: RefIndex,
    /// The tree of the commit visited last, against which the next commit is
    /// compared; nothing before the first commit.
    pub previous_tree: Option<Vec<u8>>,
}

/// The diff that a row shows: none for the first commit of a walk, whatever
/// was handed in.
pub open spec fn stats_shown(first: bool, stats: Option<DiffStats>) -> Option<DiffStats> {
    if first {
        None
    } else {
        stats
    }
}

/// The lines written for a row: the JSON object; or the CSV line, after the
/// header where the row is the first.
pub open spec fn record_lines(
    format: OutputFormat,
    first: bool,
    fields: Seq<Field>,
    row: Seq<ValueView>,
) -> Seq<Seq<char>> {
    match format {
        OutputFormat::Json => seq![json_line_text(fields, row)],
        OutputFormat::Csv => if first {
            seq![csv_header_text(fields), csv_row_text(row)]
        } else {
            seq![csv_row_text(row)]
        },
    }
}

/// The first row of a walk shows no diff: each of `df`, `di` and `dd` is an
/// empty text there, wherever it stands among the fields and whatever diff
/// was handed in.
pub proof fn lemma_first_row_shows_no_diff(
    fields: Seq<Field>,
    commit: CommitRecord,
    stats: Option<DiffStats>,
    names: Seq<Seq<char>>,
    i: int,
)
    requires
        0 <= i < fields.len(),
        fields[i] == Field::FilesChanged || fields[i] == Field::Insertions || fields[i]
            == Field::Deletions,
        row_values(fields, commit, stats_shown(true, stats), names) is Ok,
    ensures
        row_values(fields, commit, stats_shown(true, stats), names)->Ok_0[i] == ValueView::Text(
            Seq::empty(),
        ),
{
    lemma_row_follows_fields(fields, commit, stats_shown(true, stats), names);
    assert(value_at(fields, commit, stats_shown(true, stats), names, i) is Ok);
}

/// Over a walk whose rows show the ref names, the index is drained commit by
/// commit: after a row for `id` it is what it was, less the names of `id`.
pub proof fn lemma_rows_drain_the_index(
    fields: Seq<Field>,
    index: Map<Seq<u8>, Seq<Seq<char>>>,
    visited: Seq<Seq<u8>>,
    id: Seq<u8>,
)
    requires
        fields.contains(Field::RefNames),
    ensures
        index_after(fields, drained(index, visited), id) == drained(index, visited.push(id)),
{
    assert(visited.push(id).drop_last() =~= visited);
}

impl CommitWalk {
    /// The invariant of a walk: that of its index.
    pub open spec fn wf(&self) -> bool {
        self.refs.wf()
    }

    /// Whether no commit was visited yet.
    pub open spec fn at_start(&self) -> bool {
        self.previous_tree is None
    }

    /// Starts a walk for a comma-separated list of field codes. A code that
    /// asks for no field fails here, before any commit is looked at.
    pub fn new(field_list: &str, format: OutputFormat) -> (r: Result<CommitWalk, FieldError>)
        ensures
            match requested_fields(field_list@) {
                Ok(fields) => {
                    &&& r is Ok
                    &&& r->Ok_0.wf()
                    &&& r->Ok_0.fields@ == fields
                    &&& r->Ok_0.format == format
                    &&& r->Ok_0.refs@ == Map::<Seq<u8>, Seq<Seq<char>>>::empty()
                    &&& r->Ok_0.at_start()
                },
                Err(e) => r is Err && r->Err_0@ == e,
            },
    {
        match parse_fields(field_list) {
            Ok(fields) => Ok(
                CommitWalk { fields, format, refs: RefIndex::new(), previous_tree: None },
            ),
            Err(e) => Err(e),
        }
    }

    /// Whether the rows show ref names, so that the refs have to be
    /// enumerated at all.
    pub fn needs_refs(&self) -> (needed: bool)
        ensures
            needed == self.fields@.contains(Field::RefNames),
    {
        contains_field(&self.fields, Field::RefNames)
    }

    /// Indexes the refs of the repository, given in the order in which they
    /// were enumerated.
    pub fn index_refs(&mut self, entries: &Vec<RefEntry>)
        ensures
            final(self).wf(),
            final(self).refs@ == index_of(entries@),
            final(self).fields == old(self).fields,
            final(self).format == old(self).format,
            final(self).previous_tree == old(self).previous_tree,
    {
        self.refs = RefIndex::build(entries);
    }

    /// Visits the next commit: resolves its row and returns the lines to
    /// write for it. `stats` is the diff between the tree of the commit
    /// visited before and the tree of this one, where both could be had; for
    /// the first commit it is not looked at. After an error the walk is over.
    pub fn visit(&mut self, commit: &CommitRecord, stats: Option<DiffStats>) -> (r: Result<
        Vec<String>,
        FieldError,
    >)
        requires
            old(self).wf(),
        ensures
            final(self).wf(),
            final(self).fields == old(self).fields,
            final(self).format == old(self).format,
            match row_values(
                old(self).fields@,
                *commit,
                stats_shown(old(self).at_start(), stats),
                old(self).refs.names(commit.id@),
            ) {
                Ok(row) => {
                    &&& r is Ok
                    &&& texts(r->Ok_0@) == record_lines(
                        old(self).format,
                        old(self).at_start(),
                        old(self).fields@,
                        row,
                    )
                    &&& final(self).previous_tree is Some
                    &&& final(self).previous_tree->Some_0@ == commit.tree_id@
                    &&& final(self).refs@ == index_after(
                        old(self).fields@,
                        old(self).refs@,
                        commit.id@,
                    )
                },
                Err(e) => {
                    &&& r is Err
                    &&& r->Err_0@ == e
                    &&& final(self).previous_tree == old(self).previous_tree
                    &&& index_after_failure(
                        old(self).fields@,
                        *commit,
                        stats_shown(old(self).at_start(), stats),
                        old(self).refs.names(commit.id@),
                        old(self).refs@,
                        final(self).refs@,
                    )
                },
            },
    {
        let first = self.previous_tree.is_none();
        let shown = if first {
            None
        } else {
            stats
        };
        let row = match resolve_row(&self.fields, commit, shown, &mut self.refs) {
            Ok(row) => row,
            Err(e) => {
                return Err(e);
            },
        };
        proof {
            lemma_row_follows_fields(
                self.fields@,
                *commit,
                shown,
                old(self).refs.names(commit.id@),
            );
        }
        let mut lines: Vec<String> = Vec::new();
        match self.format {
            OutputFormat::Json => {
                lines.push(json_line(&self.fields, &row));
            },
            OutputFormat::Csv => {
                if first {
                    lines.push(csv_header(&self.fields));
                }
                lines.push(csv_row(&row));
            },
        }
        self.previous_tree = Some(slice_to_vec(commit.tree_id.as_slice()));
        assert(texts(lines@) =~= record_lines(self.format, first, self.fields@, row_view(row@)));
        Ok(lines)
    }
}

} // verus!
