//! The vendor (OUI) directory: a read-only map from three-octet address
//! prefixes to vendor names, loaded once from a two-column tabular resource
//! and queried case-insensitively.

use vstd::prelude::*;

use crate::hw::{
    bytes_key, eq_ignore_case, group_octets, lemma_bytes_key_bound,
    lemma_parse_case_insensitive, octets_text, parse_hex_groups, valid_hex_groups,
    HardwareAddress,
};

verus! {

use vstd::string::StringExecFns;

broadcast use vstd::std_specs::hash::group_hash_axioms;

/// What the tabular resource parsed into, a sequence of records of text
/// fields; `None` when the input is not well-formed table syntax.
pub uninterp spec fn csv_records_of(data: Seq<u8>) -> Option<Seq<Seq<Seq<char>>>>;

/// Relies on csv::Reader in its default strict mode: the first row is a
/// header and is omitted, every later row must have the header's field
/// count, quoted fields may contain commas, and any syntax violation is
/// reported as an error.
#[verifier::external_body]
fn read_csv_records(data: &[u8]) -> (r: Option<Vec<Vec<String>>>)
    ensures
        r.deep_view() == csv_records_of(data@),
{
    let mut rdr = csv::Reader::from_reader(data);
    let mut out: Vec<Vec<String>> = Vec::new();
    for rec in rdr.records() {
        match rec {
            Ok(row) => out.push(row.iter().map(|f| f.to_string()).collect()),
            Err(_) => return None,
        }
    }
    Some(out)
}

/// Why loading the vendor directory failed; loading is fatal-on-error by
/// design, a corrupt table must not silently resolve everything as unknown.
#[derive(Debug, PartialEq, Eq, Structural, Clone, Copy)]
pub enum VendorLoadError {
    /// The resource is not well-formed table syntax.
    Syntax,
    /// Record `row` (0-based, after the header) lacks a second column or has
    /// a first column that is not a three-group hex prefix.
    BadRecord { row: usize },
}

/// A record can enter the directory: it has at least two fields and its
/// first is a well-formed prefix such as `AA:BB:CC`.
pub open spec fn record_ok(rec: Seq<Seq<char>>) -> bool {
    &&& rec.len() >= 2
    &&& valid_hex_groups(rec[0], 3)
}

/// The directory key a record's prefix denotes.
pub open spec fn record_key(rec: Seq<Seq<char>>) -> u64 {
    bytes_key(group_octets(rec[0], 3)) as u64
}

/// The directory built from the first `i` records; on duplicate prefixes the
/// earliest record wins, matching a first-match linear scan.
pub open spec fn directory_of(recs: Seq<Seq<Seq<char>>>, i: int) -> Map<u64, Seq<char>>
    decreases i,
{
    if i <= 0 {
        Map::empty()
    } else {
        let m = directory_of(recs, i - 1);
        let k = record_key(recs[i - 1]);
        if m.contains_key(k) {
            m
        } else {
            m.insert(k, recs[i - 1][1])
        }
    }
}

/// The fixed text that marks an unresolved prefix.
pub open spec fn unknown_marker_text() -> Seq<char> {
    seq![
        'U', 'n', 'k', 'n', 'o', 'w', 'n', ' ', 'd', 'e', 'v', 'i', 'c', 'e', ' ', 'i', 'd', ':',
        ' ',
    ]
}

/// The label reported for an address whose prefix the directory lacks:
/// the marker followed by the queried prefix in canonical form.
pub open spec fn unknown_label(a: Seq<u8>) -> Seq<char> {
    unknown_marker_text() + octets_text(a.take(3))
}

/// The label `resolve` owes for address octets `a` against directory `dir`.
pub open spec fn resolve_label(dir: Map<u64, Seq<char>>, a: Seq<u8>) -> Seq<char> {
    let k = bytes_key(a.take(3)) as u64;
    if dir.contains_key(k) {
        dir[k]
    } else {
        unknown_label(a)
    }
}

/// A read-only map from OUI prefix to vendor name.
#[derive(Debug)]
pub struct VendorDirectory {
    map: std::collections::HashMap<u64, String>,
}

impl View for VendorDirectory {
    type V = Map<u64, Seq<char>>;

    closed spec fn view(&self) -> Map<u64, Seq<char>> {
        self.map@.map_values(|v: String| v@)
    }
}

impl VendorDirectory {
    /// Builds the directory from already-split records, validating every one:
    /// the first malformed record is reported and loading fails.
    pub fn from_records(records: &Vec<Vec<String>>) -> (r: Result<
        VendorDirectory,
        VendorLoadError,
    >)
        ensures
            match r {
                Ok(d) => (forall|j: int|
                    0 <= j < records.deep_view().len() ==> record_ok(
                        #[trigger] records.deep_view()[j],
                    )) && d@ == directory_of(records.deep_view(), records.deep_view().len() as int),
                Err(e) => e matches VendorLoadError::BadRecord { row } && 0 <= row
                    < records.deep_view().len() && !record_ok(records.deep_view()[row as int]) && (
                forall|j: int| 0 <= j < row ==> record_ok(#[trigger] records.deep_view()[j])),
            },
    {
        let ghost recs = records.deep_view();
        let mut map: std::collections::HashMap<u64, String> = std::collections::HashMap::new();
        let mut idx: usize = 0;
        proof {
            assert(map@.map_values(|v: String| v@) =~= directory_of(recs, 0));
        }
        while idx < records.len()
            invariant
                recs == records.deep_view(),
                recs.len() == records@.len(),
                idx <= records@.len(),
                forall|j: int| 0 <= j < idx ==> record_ok(#[trigger] recs[j]),
                map@.map_values(|v: String| v@) == directory_of(recs, idx as int),
            decreases records@.len() - idx,
        {
            let rec = &records[idx];
            proof {
                assert(recs[idx as int] == rec.deep_view());
                assert(rec.deep_view().len() == rec@.len());
            }
            if rec.len() < 2 {
                return Err(VendorLoadError::BadRecord { row: idx });
            }
            let octets = match parse_hex_groups(rec[0].as_str(), 3) {
                Some(v) => v,
                None => {
                    proof {
                        assert(rec.deep_view()[0] == rec@[0]@);
                        assert(!record_ok(recs[idx as int]));
                    }
                    return Err(VendorLoadError::BadRecord { row: idx });
                },
            };
            proof {
                assert(rec.deep_view()[0] == rec@[0]@);
                assert(octets@ == group_octets(recs[idx as int][0], 3));
                lemma_bytes_key_bound(octets@);
            }
            let k = (octets[0] as u64) * 0x1_0000 + (octets[1] as u64) * 0x100 + (octets[2] as u64);
            proof {
                let s = octets@;
                assert(s.take(3) =~= s);
                assert(s.take(3).drop_last() =~= s.take(2));
                assert(s.take(2).drop_last() =~= s.take(1));
                assert(s.take(1).drop_last() =~= s.take(0));
                assert(s.take(0) =~= Seq::<u8>::empty());
                assert(bytes_key(s.take(0)) == 0);
                assert(bytes_key(s.take(1)) == 256 * bytes_key(s.take(0)) + s[0]);
                assert(bytes_key(s.take(2)) == 256 * bytes_key(s.take(1)) + s[1]);
                assert(bytes_key(s.take(3)) == 256 * bytes_key(s.take(2)) + s[2]);
                assert(k == record_key(recs[idx as int]));
            }
            if !map.contains_key(&k) {
                let name = rec[1].clone();
                proof {
                    assert(rec.deep_view()[1] == rec@[1]@);
                    assert(name@ == recs[idx as int][1]);
                }
                map.insert(k, name);
            }
            proof {
                assert(map@.map_values(|v: String| v@) =~= directory_of(recs, idx + 1));
            }
            idx = idx + 1;
        }
        let d = VendorDirectory { map };
        proof {
            assert(recs.len() == records@.len());
        }
        Ok(d)
    }

    /// Loads the directory from the raw bytes of the tabular resource.
    /// The first row is a header; any malformed record is fatal.
    pub fn load(data: &[u8]) -> (r: Result<VendorDirectory, VendorLoadError>)
        ensures
            match csv_records_of(data@) {
                None => r == Err::<VendorDirectory, VendorLoadError>(VendorLoadError::Syntax),
                Some(recs) => match r {
                    Ok(d) => (forall|j: int|
                        0 <= j < recs.len() ==> record_ok(#[trigger] recs[j])) && d@
                        == directory_of(recs, recs.len() as int),
                    Err(e) => e matches VendorLoadError::BadRecord { row } && 0 <= row < recs.len()
                        && !record_ok(recs[row as int]) && (forall|j: int|
                        0 <= j < row ==> record_ok(#[trigger] recs[j])),
                },
            },
    {
        match read_csv_records(data) {
            None => Err(VendorLoadError::Syntax),
            Some(records) => VendorDirectory::from_records(&records),
        }
    }

    /// Resolves an address's vendor by its first three octets; an absent
    /// prefix yields the unknown-device label embedding that prefix, so
    /// resolution never fails.
    pub fn resolve(&self, addr: &HardwareAddress) -> (r: String)
        ensures
            r@ == resolve_label(self@, addr@),
    {
        let k = addr.oui_key();
        match self.map.get(&k) {
            Some(name) => name.clone(),
            None => {
                let mut out = String::new();
                out.append("Unknown device id: ");
                let p = addr.prefix_text();
                out.append(p.as_str());
                proof {
                    reveal_strlit("Unknown device id: ");
                    assert("Unknown device id: "@ =~= unknown_marker_text());
                    assert(out@ =~= unknown_label(addr@));
                }
                out
            },
        }
    }

    /// How many prefixes the directory holds.
    pub fn len(&self) -> (r: usize)
        ensures
            r == self@.dom().len(),
    {
        proof {
            assert(self@.dom() =~= self.map@.dom());
        }
        self.map.len()
    }
}

/// Resolution is case-insensitive: two textual addresses that differ only in
/// ASCII letter case denote the same octets and resolve to the same label.
pub proof fn lemma_resolve_case_insensitive(
    dir: Map<u64, Seq<char>>,
    s: Seq<char>,
    t: Seq<char>,
)
    requires
        eq_ignore_case(s, t),
        valid_hex_groups(s, 6),
    ensures
        valid_hex_groups(t, 6),
        resolve_label(dir, group_octets(s, 6)) == resolve_label(dir, group_octets(t, 6)),
{
    lemma_parse_case_insensitive(s, t, 6);
}

/// An unresolved prefix is embedded verbatim in the unknown-device label:
/// the label is the fixed marker followed by the prefix's canonical text.
pub proof fn lemma_unknown_label_embeds_prefix(a: Seq<u8>)
    ensures
        unknown_label(a).len() == 19 + octets_text(a.take(3)).len(),
        unknown_label(a).subrange(19, unknown_label(a).len() as int) =~= octets_text(a.take(3)),
        unknown_label(a).subrange(0, 19) =~= unknown_marker_text(),
{
}

} // verus!
