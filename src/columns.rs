use vstd::prelude::*;

use crate::groups::v_bytes;
use crate::number_stats::NumberStats;
use crate::observation::{classify, classify_spec, Observation, Parsed};
use crate::string_stats::StringStats;
use crate::text::{split_fields, split_on, views};

verus! {

/// Per-column profile of delimited input with a header line: for each column, its
/// values as strings, as numbers, and the tallies that go with their lengths.
pub struct CsvColumns {
    headers: Vec<String>,
    strings: Vec<StringStats>,
    numbers: Vec<NumberStats>,
    cardinality_cap: Option<usize>,
}

/// What field `j` reads as, when `parsed` gives it; a finite value otherwise.
pub open spec fn parsed_at(parsed: Seq<Parsed>, j: int) -> Parsed {
    if 0 <= j < parsed.len() {
        parsed[j]
    } else {
        Parsed::Finite
    }
}

/// `s` is a string accumulator with no observation and the cap `cap`.
pub open spec fn is_fresh(s: StringStats, cap: Option<usize>) -> bool {
    &&& s.wf()
    &&& s.seen() == Set::<Seq<char>>::empty()
    &&& s.spec_count() == 0
    &&& s.spec_null_count() == 0
    &&& s.spec_error_count() == 0
    &&& s.spec_cap() == cap
}

impl CsvColumns {
    pub closed spec fn spec_headers(&self) -> Seq<Seq<char>> {
        views(self.headers@)
    }

    pub closed spec fn spec_strings(&self) -> Seq<StringStats> {
        self.strings@
    }

    pub closed spec fn spec_numbers(&self) -> Seq<NumberStats> {
        self.numbers@
    }

    pub closed spec fn spec_cap(&self) -> Option<usize> {
        self.cardinality_cap
    }

    pub open spec fn wf(&self) -> bool {
        &&& self.spec_strings().len() == self.spec_headers().len()
        &&& self.spec_numbers().len() == self.spec_headers().len()
        &&& forall|j: int|
            0 <= j < self.spec_strings().len() ==> (#[trigger] self.spec_strings()[j]).wf()
                && self.spec_strings()[j].spec_cap() == self.spec_cap()
    }

    /// One column for each field of the header line, split on every `delimiter`.
    pub fn from_header(line: &str, delimiter: char, cardinality_cap: Option<usize>) -> (r: CsvColumns)
        ensures
            r.wf(),
            r.spec_headers() == split_on(line@, delimiter),
            r.spec_cap() == cardinality_cap,
            forall|j: int|
                0 <= j < r.spec_headers().len() ==> is_fresh(
                    #[trigger] r.spec_strings()[j],
                    cardinality_cap,
                ),
            forall|j: int|
                0 <= j < r.spec_headers().len() ==> #[trigger] r.spec_numbers()[j]
                    == NumberStats::spec_new(),
    {
        let headers = split_fields(line, delimiter);
        let mut strings: Vec<StringStats> = Vec::new();
        let mut numbers: Vec<NumberStats> = Vec::new();
        let mut j: usize = 0;
        while j < headers.len()
            invariant
                j <= headers.len(),
                strings.len() == j,
                numbers.len() == j,
                forall|i: int| 0 <= i < j ==> is_fresh(#[trigger] strings@[i], cardinality_cap),
                forall|i: int| 0 <= i < j ==> #[trigger] numbers@[i] == NumberStats::spec_new(),
            decreases headers.len() - j,
        {
            strings.push(StringStats::new(cardinality_cap));
            numbers.push(NumberStats::new());
            j += 1;
        }
        let r = CsvColumns { headers, strings, numbers, cardinality_cap };
        assert(r.spec_headers().len() == r.headers@.len());
        r
    }

    pub fn len(&self) -> (r: usize)
        ensures
            r == self.spec_headers().len(),
    {
        self.headers.len()
    }

    pub fn headers(&self) -> (r: &Vec<String>)
        ensures
            views(r@) == self.spec_headers(),
    {
        &self.headers
    }

    pub fn header(&self, column: usize) -> (r: &String)
        requires
            column < self.spec_headers().len(),
        ensures
            r@ == self.spec_headers()[column as int],
    {
        &self.headers[column]
    }

    pub fn strings(&self, column: usize) -> (r: &StringStats)
        requires
            self.wf(),
            column < self.spec_headers().len(),
        ensures
            *r == self.spec_strings()[column as int],
            r.wf(),
    {
        &self.strings[column]
    }

    pub fn numbers(&self, column: usize) -> (r: &NumberStats)
        requires
            self.wf(),
            column < self.spec_headers().len(),
        ensures
            *r == self.spec_numbers()[column as int],
    {
        &self.numbers[column]
    }

    /// Profiles one data line: its fields, split on every `delimiter`, are zipped with
    /// the columns; missing trailing fields leave their columns as they were and extra
    /// fields are dropped. `parsed[j]` is what field `j` reads as. Returns, column by
    /// column, the text of a numeric field and the length in bytes of a non-empty
    /// field.
    pub fn observe_row(
        &mut self,
        line: &str,
        delimiter: char,
        zero_or_empty_as_null: bool,
        parsed: &Vec<Parsed>,
    ) -> (r: (
        Vec<Option<String>>,
        Vec<Option<usize>>,
    ))
        requires
            old(self).wf(),
        ensures
            final(self).wf(),
            final(self).spec_headers() == old(self).spec_headers(),
            final(self).spec_cap() == old(self).spec_cap(),
            ({
                let f = split_on(line@, delimiter);
                let n = old(self).spec_headers().len();
                &&& r.0.len() == n
                &&& r.1.len() == n
                &&& forall|j: int|
                    0 <= j < n ==> {
                        &&& j < f.len() ==> old(self).spec_strings()[j].observed(
                            final(self).spec_strings()[j],
                            f[j],
                        ) && final(self).spec_numbers()[j] == old(self).spec_numbers()[j].after(
                            classify_spec(f[j], zero_or_empty_as_null, parsed_at(parsed@, j)),
                        )
                        &&& j >= f.len() ==> final(self).spec_strings()[j] == old(
                            self,
                        ).spec_strings()[j] && final(self).spec_numbers()[j] == old(
                            self,
                        ).spec_numbers()[j]
                        &&& (#[trigger] r.0[j]) is Some <==> (j < f.len() && classify_spec(f[j], zero_or_empty_as_null, parsed_at(parsed@, j)) == Observation::Numeric)
                        &&& r.0[j] matches Some(t) ==> t@ == f[j]
                        &&& r.1[j] is Some <==> (j < f.len() && f[j].len() > 0)
                        &&& r.1[j] matches Some(len) ==> len == v_bytes(f[j])
                    }
            }),
    {
        let fields = split_fields(line, delimiter);
        let n = self.headers.len();
        let mut texts: Vec<Option<String>> = Vec::new();
        let mut lengths: Vec<Option<usize>> = Vec::new();
        let ghost f = split_on(line@, delimiter);
        let mut j: usize = 0;
        while j < n
            invariant
                j <= n,
                n == old(self).spec_headers().len(),
                views(fields@) == f,
                self.wf(),
                self.spec_headers() == old(self).spec_headers(),
                self.spec_cap() == old(self).spec_cap(),
                texts.len() == j,
                lengths.len() == j,
                forall|i: int|
                    j <= i < n ==> self.spec_strings()[i] == old(self).spec_strings()[i]
                        && self.spec_numbers()[i] == old(self).spec_numbers()[i],
                forall|i: int|
                    0 <= i < j ==> {
                        &&& i < f.len() ==> old(self).spec_strings()[i].observed(
                            self.spec_strings()[i],
                            f[i],
                        ) && self.spec_numbers()[i] == old(self).spec_numbers()[i].after(
                            classify_spec(f[i], zero_or_empty_as_null, parsed_at(parsed@, i)),
                        )
                        &&& i >= f.len() ==> self.spec_strings()[i] == old(self).spec_strings()[i]
                            && self.spec_numbers()[i] == old(self).spec_numbers()[i]
                        &&& (#[trigger] texts@[i]) is Some <==> (i < f.len() && classify_spec(f[i], zero_or_empty_as_null, parsed_at(parsed@, i)) == Observation::Numeric)
                        &&& texts@[i] matches Some(t) ==> t@ == f[i]
                        &&& lengths@[i] is Some <==> (i < f.len() && f[i].len() > 0)
                        &&& lengths@[i] matches Some(len) ==> len == v_bytes(f[i])
                    },
            decreases n - j,
        {
            if j < fields.len() {
                let value = fields[j].as_str();
                assert(value@ == f[j as int]);
                let len = self.strings[j].observe_value(value);
                let p = if j < parsed.len() {
                    parsed[j]
                } else {
                    Parsed::Finite
                };
                let o = classify(value, zero_or_empty_as_null, p);
                self.numbers[j].observe(o);
                if o == Observation::Numeric {
                    texts.push(Some(value.to_owned()));
                } else {
                    texts.push(None);
                }
                lengths.push(len);
            } else {
                texts.push(None);
                lengths.push(None);
            }
            j += 1;
        }
        (texts, lengths)
    }
}

} // verus!
