use std::sync::atomic::AtomicBool;
use vstd::hash_map::StringHashMap;
use vstd::prelude::*;
use vstd::string::StringExecFns;

use crate::compare::key_comparator::poll_cancel;
use crate::compare::difference::RecordSpec;
use crate::error::app_error::{AppError, AppErrorSpec};
use crate::progress::{progress_ok, report_progress};
use crate::text::owned;

verus! {

/// The logical records that the `csv` crate reads from `text` with the given
/// delimiter (no header handling, records of any length), in order. An entry
/// `(true, fields)` is a record; `(false, [message])` is a read error.
pub uninterp spec fn csv_records(text: Seq<char>, delimiter: u8) -> Seq<(bool, Seq<Seq<char>>)>;

/// `csv::ReaderBuilder` with `has_headers(false)`, `delimiter(delimiter)` and
/// `flexible(true)` over the bytes of `text`, read to the end with `records()`.
/// Each record becomes its fields as strings, each error its message. The
/// result is named: it is the crate's RFC 4180 reading (quotes, escaped quotes,
/// delimiters and line breaks inside quotes), which takes pages to state.
#[verifier::external_body]
pub(crate) fn read_delimited(text: &str, delimiter: u8) -> (records: Vec<(bool, Vec<String>)>)
    ensures
        records.deep_view() == csv_records(text@, delimiter),
{
    csv::ReaderBuilder::new()
        .has_headers(false)
        .delimiter(delimiter)
        .flexible(true)
        .from_reader(text.as_bytes())
        .records()
        .map(|r| match r {
            Ok(record) => (true, record.iter().map(|f| f.to_string()).collect()),
            Err(e) => (false, vec![e.to_string()]),
        })
        .collect()
}

/// The message of a read error entry.
pub open spec fn spec_csv_error_text(entry: Seq<Seq<char>>) -> Seq<char> {
    "CSV 解析錯誤："@ + if entry.len() > 0 {
        entry[0]
    } else {
        Seq::empty()
    }
}

/// The message for a file without any record.
pub open spec fn spec_empty_file_text() -> Seq<char> {
    "檔案內容為空白，無法解析 Header。"@
}

/// The header of a file read into `entries`, or why there is none.
pub open spec fn spec_header_outcome(entries: Seq<(bool, Seq<Seq<char>>)>) -> Result<Seq<Seq<char>>, AppErrorSpec> {
    if entries.len() == 0 {
        Err(AppErrorSpec::Other(spec_empty_file_text()))
    } else if !entries[0].0 {
        Err(AppErrorSpec::Other(spec_csv_error_text(entries[0].1)))
    } else if entries[0].1.len() == 0 {
        Err(AppErrorSpec::Other(spec_empty_file_text()))
    } else {
        Ok(entries[0].1)
    }
}

/// The data records among the entries `1 ..= n`, numbered from 1, or the first
/// problem met: a read error, or (when `strict`) a record whose field count
/// differs from the header's.
pub open spec fn spec_records_upto(entries: Seq<(bool, Seq<Seq<char>>)>, header_len: nat, strict: bool, n: int) -> Result<Seq<RecordSpec>, AppErrorSpec>
    decreases n,
{
    if n <= 0 {
        Ok(Seq::empty())
    } else {
        match spec_records_upto(entries, header_len, strict, n - 1) {
            Err(e) => Err(e),
            Ok(acc) => {
                let entry = entries[n];
                if !entry.0 {
                    Err(AppErrorSpec::Other(spec_csv_error_text(entry.1)))
                } else if strict && entry.1.len() != header_len {
                    Err(AppErrorSpec::InvalidRecord {
                        record: (acc.len() + 1) as u64,
                        expected: header_len as usize,
                        actual: entry.1.len() as usize,
                    })
                } else {
                    Ok(acc.push(((acc.len() + 1) as u64, entry.1)))
                }
            },
        }
    }
}

/// All data records of a file read into `entries`, or the first problem met.
pub open spec fn spec_records(entries: Seq<(bool, Seq<Seq<char>>)>, header_len: nat, strict: bool) -> Result<Seq<RecordSpec>, AppErrorSpec> {
    spec_records_upto(entries, header_len, strict, entries.len() - 1)
}

pub(crate) proof fn lemma_records_upto_len(entries: Seq<(bool, Seq<Seq<char>>)>, header_len: nat, strict: bool, n: int)
    requires
        n >= 0,
    ensures
        spec_records_upto(entries, header_len, strict, n) matches Ok(acc) ==> acc.len() == n,
    decreases n,
{
    if n > 0 {
        lemma_records_upto_len(entries, header_len, strict, n - 1);
    }
}

/// Record-by-record reader over delimited text. The first logical record is the
/// header; subsequent records are data. With `strict`, a record whose field count
/// differs from the header's is reported as `InvalidRecord`.
pub struct DelimitedReader {
    entries: Vec<(bool, Vec<String>)>,
    next: usize,
    headers: Vec<String>,
    header_len: usize,
    record_no: u64,
    done: bool,
    strict: bool,
}

impl DelimitedReader {
    /// Everything that was read from the text, header included.
    pub closed spec fn entries(&self) -> Seq<(bool, Seq<Seq<char>>)> {
        self.entries.deep_view()
    }

    pub closed spec fn headers_view(&self) -> Seq<Seq<char>> {
        self.headers.deep_view()
    }

    pub closed spec fn is_strict(&self) -> bool {
        self.strict
    }

    /// The index of the next entry to hand out.
    pub closed spec fn position(&self) -> int {
        self.next as int
    }

    /// How many data records have been handed out.
    pub closed spec fn records_read(&self) -> u64 {
        self.record_no
    }

    /// Whether the end of the text has been reached.
    pub closed spec fn at_end(&self) -> bool {
        self.done
    }

    pub closed spec fn wf(&self) -> bool {
        &&& 1 <= self.next <= self.entries@.len()
        &&& self.header_len == self.headers@.len()
        &&& self.record_no < self.next
        &&& spec_header_outcome(self.entries.deep_view()) == Ok::<Seq<Seq<char>>, AppErrorSpec>(self.headers.deep_view())
    }

    /// What a well-formed reader's position and record count are bounded by.
    pub proof fn lemma_wf(&self)
        requires
            self.wf(),
        ensures
            1 <= self.position() <= self.entries().len(),
            self.position() <= usize::MAX,
            self.records_read() < self.position(),
            spec_header_outcome(self.entries()) == Ok::<Seq<Seq<char>>, AppErrorSpec>(self.headers_view()),
    {
    }

    /// A reader over `text`, positioned after the header.
    pub fn new(text: &str, delimiter: u8, strict: bool) -> (r: Result<Self, AppError>)
        ensures
            match r {
                Ok(reader) => {
                    &&& reader.wf()
                    &&& reader.entries() == csv_records(text@, delimiter)
                    &&& spec_header_outcome(reader.entries()) == Ok::<Seq<Seq<char>>, AppErrorSpec>(reader.headers_view())
                    &&& reader.is_strict() == strict
                    &&& reader.position() == 1
                    &&& reader.records_read() == 0
                    &&& !reader.at_end()
                },
                Err(e) => spec_header_outcome(csv_records(text@, delimiter)) == Err::<Seq<Seq<char>>, AppErrorSpec>(e.deep_view()),
            },
    {
        let entries = read_delimited(text, delimiter);
        if entries.len() == 0 {
            return Err(AppError::Other(owned("檔案內容為空白，無法解析 Header。")));
        }
        proof {
            assert(entries.deep_view()[0] == entries@[0].deep_view());
        }
        if !entries[0].0 {
            return Err(AppError::Other(csv_error_text(&entries[0].1)));
        }
        let headers = entries[0].1.clone();
        if headers.len() == 0 {
            return Err(AppError::Other(owned("檔案內容為空白，無法解析 Header。")));
        }
        let header_len = headers.len();
        Ok(DelimitedReader { entries, next: 1, headers, header_len, record_no: 0, done: false, strict })
    }

    pub fn headers(&self) -> (h: &Vec<String>)
        ensures
            h.deep_view() == self.headers_view(),
    {
        &self.headers
    }

    /// Returns the next data record as `(logical_record_number, fields)`.
    pub fn next_record(&mut self) -> (r: Result<Option<(u64, Vec<String>)>, AppError>)
        requires
            old(self).wf(),
        ensures
            final(self).wf(),
            final(self).entries() == old(self).entries(),
            final(self).headers_view() == old(self).headers_view(),
            final(self).is_strict() == old(self).is_strict(),
            old(self).at_end() ==> (r matches Ok(None) && *final(self) == *old(self)),
            !old(self).at_end() && old(self).position() >= old(self).entries().len() ==> {
                &&& r matches Ok(None)
                &&& final(self).at_end()
                &&& final(self).position() == old(self).position()
                &&& final(self).records_read() == old(self).records_read()
            },
            !old(self).at_end() && old(self).position() < old(self).entries().len() ==> {
                let entry = old(self).entries()[old(self).position()];
                let number = (old(self).records_read() + 1) as u64;
                &&& !final(self).at_end()
                &&& final(self).position() == old(self).position() + 1
                &&& final(self).records_read() == if entry.0 {
                    number
                } else {
                    old(self).records_read()
                }
                &&& match r {
                    Ok(Some(rec)) => entry.0 && !(old(self).is_strict() && entry.1.len() != old(self).headers_view().len())
                        && rec.deep_view() == (number, entry.1),
                    Ok(None) => false,
                    Err(e) => if !entry.0 {
                        e.deep_view() == AppErrorSpec::Other(spec_csv_error_text(entry.1))
                    } else {
                        old(self).is_strict() && entry.1.len() != old(self).headers_view().len()
                            && e.deep_view() == AppErrorSpec::InvalidRecord {
                            record: number,
                            expected: old(self).headers_view().len() as usize,
                            actual: entry.1.len() as usize,
                        }
                    },
                }
            },
    {
        if self.done {
            return Ok(None);
        }
        if self.next >= self.entries.len() {
            self.done = true;
            return Ok(None);
        }
        let i = self.next;
        proof {
            assert(self.entries.deep_view()[i as int] == self.entries@[i as int].deep_view());
        }
        self.next = self.next + 1;
        if self.entries[i].0 {
            self.record_no = self.record_no + 1;
            let fields = self.entries[i].1.clone();
            if self.strict && fields.len() != self.header_len {
                return Err(AppError::InvalidRecord {
                    record: self.record_no,
                    expected: self.header_len,
                    actual: fields.len(),
                });
            }
            Ok(Some((self.record_no, fields)))
        } else {
            Err(AppError::Other(csv_error_text(&self.entries[i].1)))
        }
    }

    /// Reads all remaining data records of a fresh reader, stopping at the first
    /// problem. `cancel`, when given, is polled before each record.
    /// Reads all the remaining records. `cancel`, when given, is polled before
    /// each record; every 5000 records read are reported to `progress` under
    /// `stage`.
    pub fn read_all<P: Fn(u64, Option<u64>, &'static str)>(
        &mut self,
        cancel: Option<&AtomicBool>,
        progress: &P,
        stage: &'static str,
    ) -> (r: Result<Vec<(u64, Vec<String>)>, AppError>)
        requires
            progress_ok(progress),
            old(self).wf(),
            old(self).position() == 1,
            old(self).records_read() == 0,
            !old(self).at_end(),
        ensures
            match r {
                Ok(records) => spec_records(old(self).entries(), old(self).headers_view().len(), old(self).is_strict())
                    == Ok::<Seq<RecordSpec>, AppErrorSpec>(records.deep_view()),
                Err(e) => (cancel is Some && e.deep_view() == AppErrorSpec::Cancelled)
                    || spec_records(old(self).entries(), old(self).headers_view().len(), old(self).is_strict())
                    == Err::<Seq<RecordSpec>, AppErrorSpec>(e.deep_view()),
            },
    {
        let ghost entries = self.entries();
        let ghost hl = self.headers_view().len();
        let ghost strict = self.is_strict();
        let mut out: Vec<(u64, Vec<String>)> = Vec::new();
        proof {
            assert(out.deep_view() =~= Seq::<RecordSpec>::empty());
        }
        loop
            invariant
                self.wf(),
                self.entries() == entries,
                entries == old(self).entries(),
                hl == old(self).headers_view().len(),
                strict == old(self).is_strict(),
                self.headers_view().len() == hl,
                self.is_strict() == strict,
                !self.at_end(),
                1 <= self.position() <= entries.len(),
                spec_records_upto(entries, hl, strict, self.position() - 1) == Ok::<Seq<RecordSpec>, AppErrorSpec>(out.deep_view()),
                self.records_read() == out.deep_view().len(),
                progress_ok(progress),
            decreases entries.len() - self.position(),
        {
            poll_cancel(cancel)?;
            let ghost pos = self.position();
            let ghost before = out.deep_view();
            proof {
                lemma_records_upto_len(entries, hl, strict, pos - 1);
            }
            match self.next_record() {
                Ok(Some(rec)) => {
                    out.push(rec);
                    proof {
                        assert(out.deep_view() =~= before.push(rec.deep_view()));
                    }
                    report_progress(progress, out.len() as u64, 5000, stage);
                },
                Ok(None) => {
                    return Ok(out);
                },
                Err(e) => {
                    proof {
                        assert(spec_records_upto(entries, hl, strict, pos) == Err::<Seq<RecordSpec>, AppErrorSpec>(e.deep_view()));
                        lemma_records_upto_err(entries, hl, strict, pos, entries.len() - 1);
                    }
                    return Err(e);
                },
            }
        }
    }
}

pub(crate) proof fn lemma_records_upto_err(entries: Seq<(bool, Seq<Seq<char>>)>, header_len: nat, strict: bool, m: int, n: int)
    requires
        0 <= m <= n,
        spec_records_upto(entries, header_len, strict, m) is Err,
    ensures
        spec_records_upto(entries, header_len, strict, n) == spec_records_upto(entries, header_len, strict, m),
    decreases n - m,
{
    if m < n {
        lemma_records_upto_err(entries, header_len, strict, m, n - 1);
    }
}

fn csv_error_text(entry: &Vec<String>) -> (s: String)
    ensures
        s@ == spec_csv_error_text(entry.deep_view()),
{
    let mut s = owned("CSV 解析錯誤：");
    if entry.len() > 0 {
        s.append(entry[0].as_str());
    }
    s
}

/// How often `h` occurs in `names`.
pub open spec fn name_count(names: Seq<Seq<char>>, h: Seq<char>) -> nat
    decreases names.len(),
{
    if names.len() == 0 {
        0
    } else {
        name_count(names.drop_last(), h) + if names.last() == h {
            1nat
        } else {
            0nat
        }
    }
}

proof fn lemma_name_count_bound(names: Seq<Seq<char>>, h: Seq<char>)
    ensures
        name_count(names, h) <= names.len(),
    decreases names.len(),
{
    if names.len() > 0 {
        lemma_name_count_bound(names.drop_last(), h);
    }
}

/// The first header that occurs more than once, if any.
pub open spec fn spec_first_duplicate(names: Seq<Seq<char>>, all: Seq<Seq<char>>) -> Option<Seq<char>>
    decreases names.len(),
{
    if names.len() == 0 {
        None
    } else if name_count(all, names[0]) >= 2 {
        Some(names[0])
    } else {
        spec_first_duplicate(names.drop_first(), all)
    }
}

/// Fails with the first header name that occurs more than once.
pub fn check_duplicate_headers(headers: &Vec<String>) -> (r: Result<(), AppError>)
    ensures
        match spec_first_duplicate(headers.deep_view(), headers.deep_view()) {
            Some(h) => r matches Err(e) && e.deep_view() == AppErrorSpec::DuplicateHeader(h),
            None => r is Ok,
        },
{
    let ghost hs = headers.deep_view();
    let mut seen: StringHashMap<usize> = StringHashMap::new();
    let mut i: usize = 0;
    while i < headers.len()
        invariant
            hs == headers.deep_view(),
            i <= headers.len(),
            forall|h: Seq<char>| #[trigger] seen@.contains_key(h) <==> name_count(hs.take(i as int), h) > 0,
            forall|h: Seq<char>| #[trigger] seen@.contains_key(h) ==> seen@[h] == name_count(hs.take(i as int), h),
        decreases headers.len() - i,
    {
        let ghost prev = hs.take(i as int);
        let ghost next = hs.take(i + 1);
        proof {
            assert(next.drop_last() =~= prev);
            assert(next.last() == hs[i as int]);
            lemma_name_count_bound(prev, hs[i as int]);
        }
        let c = match seen.get(headers[i].as_str()) {
            Some(c) => *c,
            None => 0,
        };
        seen.insert(headers[i].clone(), c + 1);
        i = i + 1;
    }
    proof {
        assert(hs.take(headers.len() as int) =~= hs);
        assert(hs.skip(0) =~= hs);
    }
    let mut t: usize = 0;
    while t < headers.len()
        invariant
            hs == headers.deep_view(),
            t <= headers.len(),
            forall|h: Seq<char>| #[trigger] seen@.contains_key(h) <==> name_count(hs, h) > 0,
            forall|h: Seq<char>| #[trigger] seen@.contains_key(h) ==> seen@[h] == name_count(hs, h),
            spec_first_duplicate(hs, hs) == spec_first_duplicate(hs.skip(t as int), hs),
        decreases headers.len() - t,
    {
        proof {
            assert(hs.skip(t as int).drop_first() =~= hs.skip(t + 1));
            assert(hs.skip(t as int)[0] == hs[t as int]);
        }
        let c = match seen.get(headers[t].as_str()) {
            Some(c) => *c,
            None => 0,
        };
        if c >= 2 {
            return Err(AppError::DuplicateHeader(headers[t].clone()));
        }
        t = t + 1;
    }
    proof {
        assert(hs.skip(headers.len() as int).len() == 0);
    }
    Ok(())
}

proof fn lemma_name_count_positive(names: Seq<Seq<char>>, i: int)
    requires
        0 <= i < names.len(),
    ensures
        name_count(names, names[i]) >= 1,
    decreases names.len(),
{
    if i < names.len() - 1 {
        lemma_name_count_positive(names.drop_last(), i);
    }
}

proof fn lemma_name_count_two(names: Seq<Seq<char>>, i: int, j: int)
    requires
        0 <= i < j < names.len(),
        names[i] == names[j],
    ensures
        name_count(names, names[i]) >= 2,
    decreases names.len(),
{
    if j < names.len() - 1 {
        lemma_name_count_two(names.drop_last(), i, j);
    } else {
        lemma_name_count_positive(names.drop_last(), i);
    }
}

proof fn lemma_name_count_witness(names: Seq<Seq<char>>, h: Seq<char>)
    requires
        name_count(names, h) >= 2,
    ensures
        exists|i: int, j: int| 0 <= i < j < names.len() && #[trigger] names[i] == h && #[trigger] names[j] == h,
    decreases names.len(),
{
    let rest = names.drop_last();
    if names.last() == h {
        if name_count(rest, h) >= 2 {
            lemma_name_count_witness(rest, h);
            let (i, j) = choose|i: int, j: int| 0 <= i < j < rest.len() && #[trigger] rest[i] == h && #[trigger] rest[j] == h;
            assert(names[i] == h && names[j] == h);
        } else {
            lemma_name_count_occurs(rest, h);
            let i = choose|i: int| 0 <= i < rest.len() && #[trigger] rest[i] == h;
            assert(names[i] == h);
            assert(names[names.len() - 1] == h);
        }
    } else {
        lemma_name_count_witness(rest, h);
        let (i, j) = choose|i: int, j: int| 0 <= i < j < rest.len() && #[trigger] rest[i] == h && #[trigger] rest[j] == h;
        assert(names[i] == h && names[j] == h);
    }
}

proof fn lemma_name_count_occurs(names: Seq<Seq<char>>, h: Seq<char>)
    requires
        name_count(names, h) >= 1,
    ensures
        exists|i: int| 0 <= i < names.len() && #[trigger] names[i] == h,
    decreases names.len(),
{
    if names.last() == h {
        assert(names[names.len() - 1] == h);
    } else {
        lemma_name_count_occurs(names.drop_last(), h);
        let i = choose|i: int| 0 <= i < names.drop_last().len() && #[trigger] names.drop_last()[i] == h;
        assert(names[i] == h);
    }
}

proof fn lemma_first_duplicate_suffix(names: Seq<Seq<char>>, all: Seq<Seq<char>>)
    ensures
        spec_first_duplicate(names, all) matches Some(h) ==> name_count(all, h) >= 2 && names.contains(h),
        spec_first_duplicate(names, all) is None ==> forall|i: int| 0 <= i < names.len() ==> name_count(all, #[trigger] names[i]) < 2,
    decreases names.len(),
{
    if names.len() > 0 {
        lemma_first_duplicate_suffix(names.drop_first(), all);
        if spec_first_duplicate(names, all) is None {
            assert forall|i: int| 0 <= i < names.len() implies name_count(all, #[trigger] names[i]) < 2 by {
                if i > 0 {
                    assert(names[i] == names.drop_first()[i - 1]);
                }
            }
        }
        if let Some(h) = spec_first_duplicate(names, all) {
            if name_count(all, names[0]) < 2 {
                let k = choose|k: int| 0 <= k < names.drop_first().len() && names.drop_first()[k] == h;
                assert(names[k + 1] == h);
            }
        }
    }
}

/// A header is refused exactly when some name occurs in it twice, and the name
/// reported is one that occurs twice.
pub proof fn law_duplicate_header_detected(headers: Seq<Seq<char>>)
    ensures
        spec_first_duplicate(headers, headers) is Some <==> exists|i: int, j: int|
            0 <= i < j < headers.len() && #[trigger] headers[i] == #[trigger] headers[j],
        spec_first_duplicate(headers, headers) matches Some(h) ==> exists|i: int, j: int|
            0 <= i < j < headers.len() && #[trigger] headers[i] == h && #[trigger] headers[j] == h,
{
    lemma_first_duplicate_suffix(headers, headers);
    if let Some(h) = spec_first_duplicate(headers, headers) {
        lemma_name_count_witness(headers, h);
    }
    if exists|i: int, j: int| 0 <= i < j < headers.len() && #[trigger] headers[i] == #[trigger] headers[j] {
        let (i, j) = choose|i: int, j: int| 0 <= i < j < headers.len() && #[trigger] headers[i] == #[trigger] headers[j];
        lemma_name_count_two(headers, i, j);
    }
}

} // verus!
