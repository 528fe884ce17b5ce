//! Turning result records into the rows the presentation layer renders:
//! name, formatted modification time, kind, size in KiB and full path.

use vstd::prelude::*;
use vstd::string::StringExecFns;

use crate::fs_model::EntryKind;
use crate::search_engine::result::ResultView;
use crate::search_engine::result::SearchEngineResult;
use crate::text::dec_digits;
use crate::text::u64_to_decimal;

verus! {

/// The newest timestamp the row formatter accepts (the last second of
/// year 9999, the latest date the formatting backend supports).
pub const MAX_FORMAT_TIMESTAMP: i64 = 253402300799;

/// What a Unix timestamp (seconds, UTC) renders to in the
/// `year-month-day hour:minute` form of the modified column.
pub uninterp spec fn timestamp_text(secs: int) -> Seq<char>;

/// Relies on `time::OffsetDateTime::from_unix_timestamp` (UTC) and
/// `format` with a fixed format description: the rendering depends on the
/// timestamp alone.
#[verifier::external_body]
fn format_timestamp(secs: i64) -> (r: String)
    requires
        0 <= secs <= MAX_FORMAT_TIMESTAMP,
    ensures
        r@ == timestamp_text(secs as int),
{
    let dt = time::OffsetDateTime::from_unix_timestamp(secs).unwrap();
    let desc = time::format_description::parse("[year]-[month]-[day] [hour]:[minute]")
        .unwrap();
    dt.format(&desc).unwrap()
}

/// The text of the kind column.
pub open spec fn kind_text(k: EntryKind) -> Seq<char> {
    match k {
        EntryKind::Directory => seq!['D', 'i', 'r', 'e', 'c', 't', 'o', 'r', 'y'],
        EntryKind::File => seq!['F', 'i', 'l', 'e'],
        EntryKind::Symlink => seq!['S', 'y', 'm', 'l', 'i', 'n', 'k'],
        EntryKind::Other => seq!['U', 'n', 'k', 'n', 'o', 'w', 'n'],
    }
}

/// The text of the size column: empty for directories and unknown kinds,
/// otherwise the size in KiB, rounded down but never below 1.
pub open spec fn size_text(k: EntryKind, size: int) -> Seq<char> {
    match k {
        EntryKind::File => dec_digits(kib_of(size)) + seq![' ', 'K', 'i', 'B'],
        EntryKind::Symlink => dec_digits(kib_of(size)) + seq![' ', 'K', 'i', 'B'],
        EntryKind::Directory => Seq::empty(),
        EntryKind::Other => Seq::empty(),
    }
}

/// A size in whole KiB, at least 1.
pub open spec fn kib_of(size: int) -> int {
    if size / 1000 < 1 {
        1
    } else {
        size / 1000
    }
}

/// The five cells of one rendered row.
pub open spec fn row_items(r: ResultView) -> Seq<Seq<char>> {
    seq![
        r.name,
        timestamp_text(r.modified),
        kind_text(r.file_type),
        size_text(r.file_type, r.size),
        r.full_path,
    ]
}

/// One row handed to the presentation layer: its position within the
/// delivered slice and its cell texts.
pub struct ListItemInsert {
    pub ind: usize,
    pub items: Vec<String>,
}

/// The kind column's text for one entry.
fn kind_text_exec(k: EntryKind) -> (r: String)
    ensures
        r@ == kind_text(k),
{
    proof {
        reveal_strlit("Directory");
        reveal_strlit("File");
        reveal_strlit("Symlink");
        reveal_strlit("Unknown");
    }
    let s = match k {
        EntryKind::Directory => "Directory",
        EntryKind::File => "File",
        EntryKind::Symlink => "Symlink",
        EntryKind::Other => "Unknown",
    };
    proof {
        assert(s@ =~= kind_text(k));
    }
    s.to_owned()
}

/// The size column's text for one entry.
fn size_text_exec(k: EntryKind, size: u64) -> (r: String)
    ensures
        r@ == size_text(k, size as int),
{
    match k {
        EntryKind::File | EntryKind::Symlink => {
            let kib = size / 1000;
            let kib = if kib < 1 {
                1
            } else {
                kib
            };
            let mut s = u64_to_decimal(kib);
            proof {
                reveal_strlit(" KiB");
                assert(" KiB"@ =~= seq![' ', 'K', 'i', 'B']);
            }
            s.append(" KiB");
            proof {
                assert(s@ =~= size_text(k, size as int));
            }
            s
        },
        EntryKind::Directory | EntryKind::Other => {
            let s = String::new();
            proof {
                assert(s@ =~= size_text(k, size as int));
            }
            s
        },
    }
}

/// Builds the rows for up to `take` results starting at `skip`, numbered
/// from 0 within the slice.
pub fn prep_data(results: &Vec<SearchEngineResult>, skip: usize, take: usize)
    -> (r: Vec<ListItemInsert>)
    requires
        forall|j: int|
            0 <= j < results@.len() ==> 0 <= (#[trigger] results@[j]).modified
                <= MAX_FORMAT_TIMESTAMP,
    ensures
        r@.len() == vstd::math::min(
            take as int,
            vstd::math::max(0, results@.len() - skip),
        ),
        forall|j: int|
            0 <= j < r@.len() ==> (#[trigger] r@[j]).ind == j && r@[j].items.deep_view()
                == row_items(results@[skip + j]@),
{
    let len = results.len();
    let start = if skip > len {
        len
    } else {
        skip
    };
    let end = if take > len - start {
        len
    } else {
        start + take
    };
    let mut rows: Vec<ListItemInsert> = Vec::new();
    let mut i: usize = start;
    while i < end
        invariant
            start <= i <= end,
            end <= len,
            len == results@.len(),
            start == vstd::math::min(skip as int, len as int),
            end == vstd::math::min(skip as int + take as int, len as int),
            rows@.len() == i - start,
            forall|j: int|
                0 <= j < results@.len() ==> 0 <= (#[trigger] results@[j]).modified
                    <= MAX_FORMAT_TIMESTAMP,
            forall|j: int|
                0 <= j < rows@.len() ==> (#[trigger] rows@[j]).ind == j
                    && rows@[j].items.deep_view() == row_items(results@[start + j]@),
        decreases end - i,
    {
        let f = &results[i];
        let mut items: Vec<String> = Vec::new();
        items.push(f.name.clone());
        items.push(format_timestamp(f.modified));
        items.push(kind_text_exec(f.file_type));
        items.push(size_text_exec(f.file_type, f.size));
        items.push(f.full_path.clone());
        proof {
            assert(items.deep_view() =~= row_items(results@[i as int]@));
        }
        rows.push(ListItemInsert { ind: i - start, items });
        i += 1;
    }
    rows
}

} // verus!
