//! The postal-code index: one-time bulk load from the reference file's bytes
//! into an in-memory mapping, and exact-match lookups against it.

use vstd::prelude::*;
use crate::rows::{COMMA, NEWLINE, fields_of, rows_of, split_at, split_bytes, strip_cr,
    strip_cr_vec, subrange_vec};

verus! {

/// Fewest fields a data row may have for the three consumed positions to all
/// be present.
pub const MIN_FIELDS: usize = 9;

/// Zero-based position of the postal-code field in a data row.
pub const CODE_FIELD: usize = 4;

/// Zero-based position of the city field in a data row.
pub const CITY_FIELD: usize = 7;

/// Zero-based position of the region field in a data row.
pub const STATE_FIELD: usize = 8;

/// A location record: the city and administrative region associated with one
/// postal code. Field bytes are taken verbatim from the reference file.
pub struct Location {
    pub city: Vec<u8>,
    pub state: Vec<u8>,
}

/// Spec-level image of a `Location`.
pub struct LocationSpec {
    pub city: Seq<u8>,
    pub state: Seq<u8>,
}

impl View for Location {
    type V = LocationSpec;

    open spec fn view(&self) -> LocationSpec {
        LocationSpec { city: self.city@, state: self.state@ }
    }
}

/// The entry one data row contributes to the index: present exactly when the
/// row has fields at all three consumed positions, keyed by the postal-code
/// field. Rows too short to have them contribute nothing.
pub open spec fn row_entry(row: Seq<Seq<u8>>) -> Option<(Seq<u8>, LocationSpec)> {
    if row.len() >= MIN_FIELDS {
        Some(
            (
                row[CODE_FIELD as int],
                LocationSpec { city: row[CITY_FIELD as int], state: row[STATE_FIELD as int] },
            ),
        )
    } else {
        None
    }
}

/// The mapping produced by a sequence of data rows: each contributing row
/// inserts its entry, in order, so a later row overwrites an earlier one with
/// the same postal code.
pub open spec fn index_of_rows(rws: Seq<Seq<Seq<u8>>>) -> Map<Seq<u8>, LocationSpec>
    decreases rws.len(),
{
    if rws.len() == 0 {
        Map::empty()
    } else {
        match row_entry(rws.last()) {
            Some(e) => index_of_rows(rws.drop_last()).insert(e.0, e.1),
            None => index_of_rows(rws.drop_last()),
        }
    }
}

/// The mapping described by the whole reference file: its records after the
/// header row, folded by `index_of_rows`.
pub open spec fn index_of_file(data: Seq<u8>) -> Map<Seq<u8>, LocationSpec> {
    if rows_of(data).len() == 0 {
        Map::empty()
    } else {
        index_of_rows(rows_of(data).skip(1))
    }
}

/// One stored pairing of a postal code and its location.
struct Entry {
    code: Vec<u8>,
    loc: Location,
}

/// The mapping held by a sequence of stored entries: each stored code maps to
/// the location of its last-inserted entry.
spec fn map_of_entries(es: Seq<Entry>) -> Map<Seq<u8>, LocationSpec>
    decreases es.len(),
{
    if es.len() == 0 {
        Map::empty()
    } else {
        map_of_entries(es.drop_last()).insert(es.last().code@, es.last().loc@)
    }
}

/// The postal-code index. Construction inserts entries one at a time; after
/// the load it is only ever read, so lookups may run concurrently without
/// coordination.
pub struct PostalIndex {
    entries: Vec<Entry>,
}

impl View for PostalIndex {
    type V = Map<Seq<u8>, LocationSpec>;

    closed spec fn view(&self) -> Map<Seq<u8>, LocationSpec> {
        map_of_entries(self.entries@)
    }
}

impl PostalIndex {
    /// A fresh, empty index.
    pub fn new() -> (r: PostalIndex)
        ensures
            r@ == Map::<Seq<u8>, LocationSpec>::empty(),
    {
        PostalIndex { entries: Vec::new() }
    }

    /// Inserts a location under a postal code, overwriting any earlier entry
    /// for the same code.
    pub fn insert(&mut self, code: Vec<u8>, loc: Location)
        ensures
            final(self)@ == old(self)@.insert(code@, loc@),
    {
        let ghost c = code@;
        let ghost l = loc@;
        self.entries.push(Entry { code, loc });
        proof {
            assert(self.entries@.drop_last() =~= old(self).entries@);
            assert(self.entries@.last().code@ == c);
            assert(self.entries@.last().loc@ == l);
        }
    }
}

/// Byte-for-byte equality of two byte strings.
pub fn bytes_eq(a: &[u8], b: &[u8]) -> (r: bool)
    ensures
        r == (a@ == b@),
{
    if a.len() != b.len() {
        return false;
    }
    let mut i: usize = 0;
    while i < a.len()
        invariant
            i <= a@.len(),
            a@.len() == b@.len(),
            forall|k: int| 0 <= k < i ==> a@[k] == b@[k],
        decreases a@.len() - i,
    {
        if a[i] != b[i] {
            return false;
        }
        i = i + 1;
    }
    proof {
        assert(a@ =~= b@);
    }
    true
}

/// Copies a byte string into a fresh vector.
pub fn copy_bytes(s: &[u8]) -> (r: Vec<u8>)
    ensures
        r@ == s@,
{
    let r = subrange_vec(s, 0, s.len());
    proof {
        assert(s@.subrange(0, s@.len() as int) =~= s@);
    }
    r
}

/// An entry whose code matches nothing later in the store gives the mapping's
/// value for that code.
proof fn lemma_map_entries_found(es: Seq<Entry>, i: int)
    requires
        0 <= i < es.len(),
        forall|j: int| i < j < es.len() ==> es[j].code@ != es[i].code@,
    ensures
        map_of_entries(es).contains_key(es[i].code@),
        map_of_entries(es)[es[i].code@] == es[i].loc@,
    decreases es.len(),
{
    if i == es.len() - 1 {
    } else {
        let d = es.drop_last();
        assert forall|j: int| i < j < d.len() implies d[j].code@ != d[i].code@ by {
            assert(d[j] == es[j]);
        }
        lemma_map_entries_found(d, i);
        assert(es.last().code@ != es[i].code@);
    }
}

/// A code matching no stored entry is absent from the mapping.
proof fn lemma_map_entries_absent(es: Seq<Entry>, k: Seq<u8>)
    requires
        forall|j: int| 0 <= j < es.len() ==> es[j].code@ != k,
    ensures
        !map_of_entries(es).contains_key(k),
    decreases es.len(),
{
    if es.len() > 0 {
        let d = es.drop_last();
        assert forall|j: int| 0 <= j < d.len() implies d[j].code@ != k by {
            assert(d[j] == es[j]);
        }
        lemma_map_entries_absent(d, k);
    }
}

/// What one lookup result says against a snapshot of the index content: a hit
/// carries exactly the location the mapping holds for the key, and a miss
/// happens exactly when the key is absent.
pub open spec fn lookup_result_matches(
    m: Map<Seq<u8>, LocationSpec>,
    k: Seq<u8>,
    r: Option<LocationSpec>,
) -> bool {
    match r {
        Some(l) => m.contains_key(k) && l == m[k],
        None => !m.contains_key(k),
    }
}

/// Exact-match lookup of a postal code, taken verbatim: no trimming, case
/// folding or padding. A miss is a legitimate negative result, not an error.
/// The index is only read, never changed.
pub fn lookup_postal_code(index: &PostalIndex, postal_code: &[u8]) -> (r: Option<Location>)
    ensures
        lookup_result_matches(
            index@,
            postal_code@,
            match r {
                Some(l) => Some(l@),
                None => None,
            },
        ),
{
    let mut i: usize = index.entries.len();
    while i > 0
        invariant
            i <= index.entries@.len(),
            forall|j: int|
                i <= j < index.entries@.len() ==> index.entries@[j].code@ != postal_code@,
        decreases i,
    {
        i = i - 1;
        if bytes_eq(index.entries[i].code.as_slice(), postal_code) {
            proof {
                lemma_map_entries_found(index.entries@, i as int);
            }
            return Some(
                Location {
                    city: copy_bytes(index.entries[i].loc.city.as_slice()),
                    state: copy_bytes(index.entries[i].loc.state.as_slice()),
                },
            );
        }
    }
    proof {
        lemma_map_entries_absent(index.entries@, postal_code@);
    }
    None
}

/// Appending a row inserts its entry when it has the three consumed fields
/// and changes nothing when it does not.
pub proof fn lemma_index_of_rows_push(rws: Seq<Seq<Seq<u8>>>, row: Seq<Seq<u8>>)
    ensures
        index_of_rows(rws.push(row)) == match row_entry(row) {
            Some(e) => index_of_rows(rws).insert(e.0, e.1),
            None => index_of_rows(rws),
        },
{
    assert(rws.push(row).drop_last() =~= rws);
    assert(rws.push(row).last() == row);
}

/// Builds the index from the raw bytes of the reference file. Every record
/// after the header row that has the postal-code, city and region fields
/// contributes an entry, later records overwriting earlier ones with the same
/// code; records without them are skipped and the load runs on.
pub fn load_index(data: &[u8]) -> (index: PostalIndex)
    ensures
        index@ == index_of_file(data@),
{
    let ghost rws = rows_of(data@);
    let lines: Vec<Vec<u8>> = split_bytes(data, NEWLINE);
    let mut index = PostalIndex::new();
    if lines.len() == 0 {
        return index;
    }
    let mut i: usize = 1;
    while i < lines.len()
        invariant
            1 <= i <= lines@.len(),
            lines.deep_view() == split_at(data@, NEWLINE),
            rws == rows_of(data@),
            rws.len() == lines@.len(),
            index@ == index_of_rows(rws.subrange(1, i as int)),
        decreases lines@.len() - i,
    {
        let mut line: Vec<u8> = copy_bytes(lines[i].as_slice());
        proof {
            assert(lines@[i as int].deep_view() =~= lines@[i as int]@);
            assert(line@ == lines.deep_view()[i as int]);
        }
        let ghost raw_line = line@;
        strip_cr_vec(&mut line);
        let fields: Vec<Vec<u8>> = split_bytes(line.as_slice(), COMMA);
        let ghost row = rws[i as int];
        proof {
            assert(row == fields_of(raw_line));
            assert(fields.deep_view() == split_at(strip_cr(raw_line), COMMA));
            assert(fields.deep_view() == row);
            assert(fields@.len() == row.len());
        }
        if fields.len() >= MIN_FIELDS {
            let code = copy_bytes(fields[CODE_FIELD].as_slice());
            let city = copy_bytes(fields[CITY_FIELD].as_slice());
            let state = copy_bytes(fields[STATE_FIELD].as_slice());
            proof {
                assert(fields@[CODE_FIELD as int].deep_view() =~= fields@[CODE_FIELD as int]@);
                assert(fields@[CITY_FIELD as int].deep_view() =~= fields@[CITY_FIELD as int]@);
                assert(fields@[STATE_FIELD as int].deep_view() =~= fields@[STATE_FIELD as int]@);
                assert(code@ == row[CODE_FIELD as int]);
                assert(city@ == row[CITY_FIELD as int]);
                assert(state@ == row[STATE_FIELD as int]);
            }
            index.insert(code, Location { city, state });
        }
        proof {
            assert(rws.subrange(1, i as int + 1) =~= rws.subrange(1, i as int).push(row));
            lemma_index_of_rows_push(rws.subrange(1, i as int), row);
        }
        i = i + 1;
    }
    proof {
        assert(rws.subrange(1, rws.len() as int) =~= rws.skip(1));
    }
    index
}

/// Loading is deterministic: two indexes loaded from the same file bytes hold
/// the same content, so re-running the load from a fresh empty index yields
/// an identical result.
pub proof fn lemma_load_deterministic(a: PostalIndex, b: PostalIndex, data: Seq<u8>)
    requires
        a@ == index_of_file(data),
        b@ == index_of_file(data),
    ensures
        a@ == b@,
{
}

/// A row without all three consumed fields is excluded from the index
/// entirely: it contributes no entry and leaves the mapping unchanged.
pub proof fn lemma_short_row_excluded(rws: Seq<Seq<Seq<u8>>>, row: Seq<Seq<u8>>)
    requires
        row.len() < MIN_FIELDS,
    ensures
        index_of_rows(rws.push(row)) == index_of_rows(rws),
{
    lemma_index_of_rows_push(rws, row);
}

/// Last writer wins: if row `j` carries postal code `k` and no later row
/// carries `k`, the loaded mapping holds row `j`'s location under `k`.
pub proof fn lemma_last_writer_wins(rws: Seq<Seq<Seq<u8>>>, j: int, k: Seq<u8>)
    requires
        0 <= j < rws.len(),
        rws[j].len() >= MIN_FIELDS,
        rws[j][CODE_FIELD as int] == k,
        forall|j2: int|
            j < j2 < rws.len() ==> (rws[j2].len() >= MIN_FIELDS ==> rws[j2][CODE_FIELD as int]
                != k),
    ensures
        index_of_rows(rws).contains_key(k),
        index_of_rows(rws)[k] == (LocationSpec {
            city: rws[j][CITY_FIELD as int],
            state: rws[j][STATE_FIELD as int],
        }),
    decreases rws.len(),
{
    if j == rws.len() - 1 {
    } else {
        let d = rws.drop_last();
        assert forall|j2: int|
            j < j2 < d.len() implies (d[j2].len() >= MIN_FIELDS ==> d[j2][CODE_FIELD as int]
            != k) by {
            assert(d[j2] == rws[j2]);
        }
        assert(d[j] == rws[j]);
        lemma_last_writer_wins(d, j, k);
        match row_entry(rws.last()) {
            Some(e) => {
                assert(rws.last() == rws[rws.len() - 1]);
                assert(e.0 != k);
            },
            None => {},
        }
    }
}

/// A postal code carried by no contributing row is absent from the loaded
/// mapping.
pub proof fn lemma_absent_key(rws: Seq<Seq<Seq<u8>>>, k: Seq<u8>)
    requires
        forall|j: int|
            0 <= j < rws.len() ==> (rws[j].len() >= MIN_FIELDS ==> rws[j][CODE_FIELD as int] != k),
    ensures
        !index_of_rows(rws).contains_key(k),
    decreases rws.len(),
{
    if rws.len() > 0 {
        let d = rws.drop_last();
        assert forall|j: int|
            0 <= j < d.len() implies (d[j].len() >= MIN_FIELDS ==> d[j][CODE_FIELD as int]
            != k) by {
            assert(d[j] == rws[j]);
        }
        lemma_absent_key(d, k);
        assert(rws.last() == rws[rws.len() - 1]);
    }
}

/// Concurrent lookups need no coordination: any two results for the same key
/// against the same index content are equal, so simultaneous readers, of the
/// same key or of different ones, all observe one static snapshot.
pub proof fn lemma_lookups_agree(
    m: Map<Seq<u8>, LocationSpec>,
    k: Seq<u8>,
    r1: Option<LocationSpec>,
    r2: Option<LocationSpec>,
)
    requires
        lookup_result_matches(m, k, r1),
        lookup_result_matches(m, k, r2),
    ensures
        r1 == r2,
{
}

} // verus!
