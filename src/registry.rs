use crate::addon::{Addon, AddonView};
use crate::path::{push_path, push_spec, strip_base, strip_base_spec};
use crate::reconcile::addons_view;
use crate::settings::strings_view;
use vstd::prelude::*;

verus! {

/// The records of tab-separated text without a header row, each a list of
/// fields, as the `csv` crate reads them.
pub uninterp spec fn tsv_records(text: Seq<char>) -> Seq<Seq<Seq<char>>>;

pub open spec fn records_view(rs: Seq<Vec<String>>) -> Seq<Seq<Seq<char>>> {
    rs.map_values(|r: Vec<String>| strings_view(r@))
}

/// Every record has as many fields as the first one.
pub open spec fn uniform(records: Seq<Seq<Seq<char>>>) -> bool {
    forall|i: int| 0 <= i < records.len() ==> #[trigger] records[i].len() == records[0].len()
}

/// Relies on `csv::ReaderBuilder` with no header row and tab as the
/// delimiter: the fields of each record of the text, in order. The reader
/// is not flexible, so it fails exactly where a record has another number
/// of fields than the first.
#[verifier::external_body]
fn read_tsv(text: &str) -> (r: Result<Vec<Vec<String>>, String>)
    ensures
        r is Ok <==> uniform(tsv_records(text@)),
        r matches Ok(rs) ==> records_view(rs@) == tsv_records(text@),
{
    let mut reader = csv::ReaderBuilder::new().has_headers(false).delimiter(b'\t').from_reader(
        text.as_bytes(),
    );
    let mut rows = Vec::new();
    for record in reader.records() {
        rows.push(record.map_err(|e| e.to_string())?.iter().map(String::from).collect());
    }
    Ok(rows)
}

/// Why the package manager's listing could not be read.
#[derive(Debug, Clone, PartialEq, Eq)]
pub enum RecordError {
    /// The text is not tab-separated records.
    Unreadable(String),
    /// The record at this index has fewer than the four fields a listing has.
    TooFewFields(usize),
}

/// The number of fields in a record of a listing.
pub const RECORD_FIELDS: usize = 4;

/// The index of the first record with fewer than four fields, if any.
pub open spec fn first_short(records: Seq<Seq<Seq<char>>>) -> Option<int> {
    if exists|i: int| 0 <= i < records.len() && #[trigger] records[i].len() < RECORD_FIELDS {
        Some(
            choose|i: int|
                0 <= i < records.len() && #[trigger] records[i].len() < RECORD_FIELDS && forall|j: int|
                    0 <= j < i ==> #[trigger] records[j].len() >= RECORD_FIELDS,
        )
    } else {
        None
    }
}

/// An installed addon from a record `name, version, status, tree`: it is
/// installed in `{tree}/{name}/{version}`, relative to `cwd` where it lies
/// below it.
pub open spec fn installed_addon(record: Seq<Seq<char>>, cwd: Seq<char>) -> AddonView {
    AddonView {
        name: record[0],
        version: record[1],
        location: Some(strip_base_spec(push_spec(push_spec(record[3], record[0]), record[1]), cwd)),
    }
}

/// The installed addons that the records list.
pub open spec fn installed_spec(records: Seq<Seq<Seq<char>>>, cwd: Seq<char>) -> Result<
    Seq<AddonView>,
    int,
> {
    match first_short(records) {
        Some(i) => Err(i),
        None => Ok(records.map_values(|r: Seq<Seq<char>>| installed_addon(r, cwd))),
    }
}

pub open spec fn rockspec() -> Seq<char> {
    seq!['r', 'o', 'c', 'k', 's', 'p', 'e', 'c']
}

/// The addons from records `name, version, file type, source` whose file
/// type is `rockspec`, in order; they have no location.
pub open spec fn online_addons(records: Seq<Seq<Seq<char>>>) -> Seq<AddonView>
    decreases records.len(),
{
    if records.len() == 0 {
        Seq::empty()
    } else if records.last()[2] == rockspec() {
        online_addons(records.drop_last()).push(
            AddonView { name: records.last()[0], version: records.last()[1], location: None },
        )
    } else {
        online_addons(records.drop_last())
    }
}

pub open spec fn online_spec(records: Seq<Seq<Seq<char>>>) -> Result<Seq<AddonView>, int> {
    match first_short(records) {
        Some(i) => Err(i),
        None => Ok(online_addons(records)),
    }
}

pub open spec fn record_result_view(r: Result<Vec<Addon>, RecordError>) -> Result<
    Seq<AddonView>,
    int,
> {
    match r {
        Ok(v) => Ok(addons_view(v@)),
        Err(RecordError::TooFewFields(i)) => Err(i as int),
        Err(RecordError::Unreadable(_)) => Err(-1),
    }
}

proof fn lemma_first_short(records: Seq<Seq<Seq<char>>>, i: int)
    requires
        0 <= i < records.len(),
        records[i].len() < RECORD_FIELDS,
        forall|j: int| 0 <= j < i ==> #[trigger] records[j].len() >= RECORD_FIELDS,
    ensures
        first_short(records) == Some(i),
{
    let k = choose|k: int|
        0 <= k < records.len() && #[trigger] records[k].len() < RECORD_FIELDS && forall|j: int|
            0 <= j < k ==> #[trigger] records[j].len() >= RECORD_FIELDS;
    if k < i {
        assert(records[k].len() >= RECORD_FIELDS);
    }
    if i < k {
        assert(records[i].len() >= RECORD_FIELDS);
    }
}

/// The installed addons that the records of a listing name, each installed
/// in `{tree}/{name}/{version}` and relative to `cwd` where it lies below it.
/// A record with fewer than four fields fails the whole listing.
pub fn installed_from_records(records: &Vec<Vec<String>>, cwd: &str) -> (r: Result<
    Vec<Addon>,
    RecordError,
>)
    ensures
        record_result_view(r) == installed_spec(records_view(records@), cwd@),
{
    let ghost rv = records_view(records@);
    let mut out: Vec<Addon> = Vec::new();
    let mut i: usize = 0;
    while i < records.len()
        invariant
            i <= records.len(),
            rv == records_view(records@),
            forall|j: int| 0 <= j < i ==> #[trigger] rv[j].len() >= RECORD_FIELDS,
            addons_view(out@) == rv.take(i as int).map_values(
                |r: Seq<Seq<char>>| installed_addon(r, cwd@),
            ),
        decreases records.len() - i,
    {
        let record = &records[i];
        assert(rv[i as int] == strings_view(record@));
        if record.len() < RECORD_FIELDS {
            proof {
                lemma_first_short(rv, i as int);
            }
            return Err(RecordError::TooFewFields(i));
        }
        let name = &record[0];
        let version = &record[1];
        let dir = push_path(record[3].as_str(), name.as_str());
        let dir = push_path(dir.as_str(), version.as_str());
        let location = strip_base(dir.as_str(), cwd);
        let addon = Addon { name: name.clone(), version: version.clone(), location: Some(location) };
        let ghost before = out@;
        let ghost av = addon@;
        assert(av == installed_addon(rv[i as int], cwd@));
        out.push(addon);
        assert(addons_view(out@) =~= addons_view(before).push(av));
        assert(rv.take(i + 1).map_values(|r: Seq<Seq<char>>| installed_addon(r, cwd@))
            =~= rv.take(i as int).map_values(|r: Seq<Seq<char>>| installed_addon(r, cwd@)).push(
            av,
        ));
        i = i + 1;
    }
    assert(rv.take(i as int) =~= rv);
    assert(first_short(rv) is None);
    Ok(out)
}

/// The addons that the records of an online search name, those whose file
/// type is `rockspec`, without a location. A record with fewer than four
/// fields fails the whole listing.
pub fn online_from_records(records: &Vec<Vec<String>>) -> (r: Result<Vec<Addon>, RecordError>)
    ensures
        record_result_view(r) == online_spec(records_view(records@)),
{
    let ghost rv = records_view(records@);
    let kind = "rockspec".to_owned();
    proof {
        reveal_strlit("rockspec");
    }
    assert(kind@ =~= rockspec());
    let mut out: Vec<Addon> = Vec::new();
    let mut i: usize = 0;
    while i < records.len()
        invariant
            i <= records.len(),
            rv == records_view(records@),
            kind@ == rockspec(),
            forall|j: int| 0 <= j < i ==> #[trigger] rv[j].len() >= RECORD_FIELDS,
            addons_view(out@) == online_addons(rv.take(i as int)),
        decreases records.len() - i,
    {
        let record = &records[i];
        assert(rv[i as int] == strings_view(record@));
        if record.len() < RECORD_FIELDS {
            proof {
                lemma_first_short(rv, i as int);
            }
            return Err(RecordError::TooFewFields(i));
        }
        assert(rv.take(i + 1).drop_last() =~= rv.take(i as int));
        assert(rv.take(i + 1).last() == rv[i as int]);
        if record[2] == kind {
            let addon = Addon { name: record[0].clone(), version: record[1].clone(), location: None };
            let ghost before = out@;
            let ghost av = addon@;
            out.push(addon);
            assert(addons_view(out@) =~= addons_view(before).push(av));
        }
        i = i + 1;
    }
    assert(rv.take(i as int) =~= rv);
    assert(first_short(rv) is None);
    Ok(out)
}

/// The installed addons that the package manager's listing `text` names;
/// the listing is unreadable where its records differ in length.
pub fn installed_from_output(text: &str, cwd: &str) -> (r: Result<Vec<Addon>, RecordError>)
    ensures
        uniform(tsv_records(text@)) ==> record_result_view(r) == installed_spec(
            tsv_records(text@),
            cwd@,
        ),
        !uniform(tsv_records(text@)) ==> r matches Err(RecordError::Unreadable(_)),
{
    match read_tsv(text) {
        Err(m) => Err(RecordError::Unreadable(m)),
        Ok(records) => installed_from_records(&records, cwd),
    }
}

/// The addons that the package manager's search output `text` names; the
/// output is unreadable where its records differ in length.
pub fn online_from_output(text: &str) -> (r: Result<Vec<Addon>, RecordError>)
    ensures
        uniform(tsv_records(text@)) ==> record_result_view(r) == online_spec(tsv_records(text@)),
        !uniform(tsv_records(text@)) ==> r matches Err(RecordError::Unreadable(_)),
{
    match read_tsv(text) {
        Err(m) => Err(RecordError::Unreadable(m)),
        Ok(records) => online_from_records(&records),
    }
}

} // verus!
