//! The semicolon-delimited family table: reading records with the `csv`
//! crate, locating the columns by their header names, and reading fields.
use vstd::prelude::*;

verus! {

/// Text of each field of each record, header included.
pub open spec fn table_view(t: Seq<Vec<String>>) -> Seq<Seq<Seq<char>>> {
    Seq::new(t.len(), |i: int| Seq::new(t[i]@.len(), |j: int| t[i]@[j]@))
}

/// The records that the `csv` reader splits a `;`-delimited input into, or
/// the index of the record in which it reports an error, where it names one.
pub uninterp spec fn csv_records_of(b: Seq<u8>) -> Result<Seq<Seq<Seq<char>>>, Option<u64>>;

/// Relies on csv's `Reader` built with `;` as delimiter and the header row
/// returned as a record: its records, or for its first error (invalid UTF-8,
/// records of unequal length) the record index that `Error::position` gives,
/// as a function of the bytes.
#[verifier::external_body]
pub(crate) fn read_records(b: &[u8]) -> (r: Result<Vec<Vec<String>>, Option<u64>>)
    ensures
        match r {
            Ok(t) => csv_records_of(b@) == Ok::<Seq<Seq<Seq<char>>>, Option<u64>>(table_view(t@)),
            Err(pos) => csv_records_of(b@) == Err::<Seq<Seq<Seq<char>>>, Option<u64>>(pos),
        },
{
    csv::ReaderBuilder::new().delimiter(b';').has_headers(false).from_reader(b).records().map(
        |rec| rec.map(|rec| rec.iter().map(|f| f.to_string()).collect()),
    ).collect::<Result<Vec<Vec<String>>, csv::Error>>().map_err(
        |e| e.position().map(|p| p.record()),
    )
}

pub open spec fn is_digit(c: char) -> bool {
    '0' <= c && c <= '9'
}

/// Value of a string of decimal digits.
pub open spec fn digits_value(s: Seq<char>) -> int
    decreases s.len(),
{
    if s.len() == 0 {
        0
    } else {
        10 * digits_value(s.drop_last()) + (s.last() as int - '0' as int)
    }
}

pub open spec fn all_digits(s: Seq<char>) -> bool {
    s.len() > 0 && forall|i: int| 0 <= i < s.len() ==> #[trigger] is_digit(s[i])
}

/// An optional `+` or `-` followed by one or more decimal digits.
pub open spec fn decimal_value(s: Seq<char>) -> Option<int> {
    if s.len() > 0 && s[0] == '-' && all_digits(s.drop_first()) {
        Some(-digits_value(s.drop_first()))
    } else if s.len() > 0 && s[0] == '+' && all_digits(s.drop_first()) {
        Some(digits_value(s.drop_first()))
    } else if all_digits(s) {
        Some(digits_value(s))
    } else {
        None
    }
}

/// A decimal that fits an `i32`.
pub open spec fn parsed_i32(s: Seq<char>) -> Option<i32> {
    match decimal_value(s) {
        Some(v) => if i32::MIN <= v <= i32::MAX {
            Some(v as i32)
        } else {
            None
        },
        None => None,
    }
}

/// Relies on `str::parse::<i32>`: an optional sign and decimal digits whose
/// value fits, anything else is an error.
#[verifier::external_body]
fn parse_i32(s: &str) -> (r: Option<i32>)
    ensures
        r == parsed_i32(s@),
{
    s.parse::<i32>().ok()
}

/// Reads an identifier field.
pub fn read_id(s: &String) -> (r: Option<i32>)
    ensures
        r == parsed_i32(s@),
{
    parse_i32(s.as_str())
}

/// An optional identifier: empty is absent, anything else must be a number.
pub open spec fn parsed_opt_id(s: Seq<char>) -> Option<Option<i32>> {
    if s.len() == 0 {
        Some(None)
    } else {
        match parsed_i32(s) {
            Some(v) => Some(Some(v)),
            None => None,
        }
    }
}

/// Reads an optional identifier field.
pub fn read_opt_id(s: &String) -> (r: Option<Option<i32>>)
    ensures
        r == parsed_opt_id(s@),
{
    if s.as_str().is_empty() {
        Some(None)
    } else {
        match parse_i32(s.as_str()) {
            Some(v) => Some(Some(v)),
            None => None,
        }
    }
}

/// Position of the first header field equal to `name`, if any.
pub open spec fn column_of(header: Seq<Seq<char>>, name: Seq<char>) -> Option<int>
    decreases header.len(),
{
    if header.len() == 0 {
        None
    } else if header[0] == name {
        Some(0)
    } else {
        match column_of(header.drop_first(), name) {
            Some(i) => Some(i + 1),
            None => None,
        }
    }
}

proof fn lemma_column_of_step(header: Seq<Seq<char>>, name: Seq<char>, i: int)
    requires
        0 <= i < header.len(),
        forall|j: int| 0 <= j < i ==> header[j] != name,
    ensures
        column_of(header, name) == (if header[i] == name {
            Some(i)
        } else {
            match column_of(header.subrange(i + 1, header.len() as int), name) {
                Some(k) => Some(k + i + 1),
                None => None,
            }
        }),
    decreases i,
{
    if i > 0 {
        lemma_column_of_step(header.drop_first(), name, i - 1);
        assert(header.drop_first().subrange(i, header.len() - 1) =~= header.subrange(i + 1, header.len() as int));
    }
}

/// Finds the column whose header is `name`.
pub fn find_column(header: &Vec<String>, name: &String) -> (r: Option<usize>)
    ensures
        match column_of(header@.map_values(|f: String| f@), name@) {
            Some(i) => r == Some(i as usize),
            None => r is None,
        },
        r matches Some(i) ==> i < header.len(),
{
    let ghost h = header@.map_values(|f: String| f@);
    let mut i: usize = 0;
    while i < header.len()
        invariant
            i <= header.len(),
            h == header@.map_values(|f: String| f@),
            forall|j: int| 0 <= j < i ==> h[j] != name@,
        decreases header.len() - i,
    {
        proof {
            lemma_column_of_step(h, name@, i as int);
        }
        if header[i] == *name {
            return Some(i);
        }
        i = i + 1;
    }
    proof {
        lemma_column_absent(h, name@);
    }
    None
}

proof fn lemma_column_absent(header: Seq<Seq<char>>, name: Seq<char>)
    requires
        forall|j: int| 0 <= j < header.len() ==> header[j] != name,
    ensures
        column_of(header, name) is None,
    decreases header.len(),
{
    if header.len() > 0 {
        lemma_column_absent(header.drop_first(), name);
    }
}

} // verus!
