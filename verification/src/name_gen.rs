use vstd::prelude::*;

verus! {

/// One row of a name-weight table. After the table is built, `value` holds
/// the running sum of the weights up to and including this row.
#[derive(Clone, Debug, PartialEq, Eq)]
pub struct Entry {
    pub name: String,
    pub value: u32,
}

impl Entry {
    pub fn new(name: String, value: u32) -> (r: Self)
        ensures
            r == (Entry { name, value }),
    {
        Entry { name, value }
    }
}

/// The sum of a sequence of weights.
pub open spec fn spec_sum(values: Seq<u32>) -> int
    decreases values.len(),
{
    if values.len() == 0 {
        0
    } else {
        values[0] + spec_sum(values.drop_first())
    }
}

pub proof fn lemma_sum_push(values: Seq<u32>, v: u32)
    ensures
        spec_sum(values.push(v)) == spec_sum(values) + v,
    decreases values.len(),
{
    let p = values.push(v);
    if values.len() == 0 {
        assert(p[0] == v);
        assert(p.drop_first() =~= Seq::<u32>::empty());
        assert(spec_sum(p) == v + spec_sum(p.drop_first()));
        assert(spec_sum(Seq::<u32>::empty()) == 0);
        assert(spec_sum(values) == 0);
    } else {
        assert(p[0] == values[0]);
        assert(p.drop_first() =~= values.drop_first().push(v));
        lemma_sum_push(values.drop_first(), v);
        assert(spec_sum(p) == p[0] + spec_sum(p.drop_first()));
        assert(spec_sum(values) == values[0] + spec_sum(values.drop_first()));
    }
}

pub proof fn lemma_sum_nonneg(values: Seq<u32>)
    ensures
        spec_sum(values) >= 0,
    decreases values.len(),
{
    if values.len() > 0 {
        lemma_sum_nonneg(values.drop_first());
    }
}

/// The sum of a prefix never exceeds the sum of the whole sequence.
pub proof fn lemma_sum_take_le(values: Seq<u32>, k: int)
    requires
        0 <= k <= values.len(),
    ensures
        spec_sum(values.take(k)) <= spec_sum(values),
    decreases values.len() - k,
{
    if k == values.len() {
        assert(values.take(k) =~= values);
    } else {
        assert(values.take(k + 1) =~= values.take(k).push(values[k]));
        lemma_sum_push(values.take(k), values[k]);
        lemma_sum_take_le(values, k + 1);
    }
}

/// The name the weighted table yields for a selection index: the first row
/// whose running-sum weight exceeds the index.
pub open spec fn spec_pick(entries: Seq<Entry>, index: u32) -> Seq<char>
    decreases entries.len(),
{
    if entries.len() == 0 {
        "IMPOSSIBLE"@
    } else if index < entries[0].value {
        entries[0].name@
    } else {
        spec_pick(entries.drop_first(), index)
    }
}

/// The weights of a table, row by row.
pub open spec fn spec_values(entries: Seq<Entry>) -> Seq<u32> {
    entries.map_values(|e: Entry| e.value)
}

/// A weighted name table: selection walks the running sums of the weights.
#[derive(Debug, PartialEq, Eq)]
pub struct NameGenerator {
    pub entries: Vec<Entry>,
    pub total_value: u32,
}

impl NameGenerator {
    /// Build the table from weighted rows: each row's weight is replaced by
    /// the running sum of the weights so far, and the total is recorded.
    pub fn new(entries: Vec<Entry>) -> (r: Self)
        requires
            spec_sum(spec_values(entries@)) <= u32::MAX,
        ensures
            r.entries@.len() == entries@.len(),
            forall|i: int|
                0 <= i < entries@.len() ==> (#[trigger] r.entries@[i]).name
                    == entries@[i].name,
            forall|i: int|
                0 <= i < entries@.len() ==> (#[trigger] r.entries@[i]).value
                    == spec_sum(spec_values(entries@).take(i + 1)),
            r.total_value == spec_sum(spec_values(entries@)),
    {
        let ghost values = spec_values(entries@);
        let mut built: Vec<Entry> = Vec::new();
        let mut total_value: u32 = 0;
        let n = entries.len();
        let mut i: usize = 0;
        proof {
            assert(values.take(0) =~= Seq::<u32>::empty());
        }
        while i < n
            invariant
                i <= n,
                n == entries@.len(),
                values == spec_values(entries@),
                spec_sum(values) <= u32::MAX,
                total_value == spec_sum(values.take(i as int)),
                built@.len() == i,
                forall|k: int|
                    0 <= k < i ==> (#[trigger] built@[k]).name == entries@[k].name,
                forall|k: int|
                    0 <= k < i ==> (#[trigger] built@[k]).value == spec_sum(
                        values.take(k + 1),
                    ),
            decreases n - i,
        {
            let entry = &entries[i];
            proof {
                assert(values.take(i + 1) =~= values.take(i as int).push(values[i as int]));
                lemma_sum_push(values.take(i as int), values[i as int]);
                lemma_sum_take_le(values, i + 1);
                lemma_sum_nonneg(values.take(i as int));
                assert(values[i as int] == entry.value);
            }
            total_value = total_value + entry.value;
            built.push(Entry { name: entry.name.clone(), value: total_value });
            i = i + 1;
        }
        proof {
            assert(values.take(n as int) =~= values);
        }
        NameGenerator { entries: built, total_value }
    }

    /// A table where every name carries the same weight of one.
    pub fn without_probability(names: Vec<String>) -> (r: Self)
        requires
            names@.len() <= u32::MAX,
        ensures
            r.entries@.len() == names@.len(),
            forall|i: int|
                0 <= i < names@.len() ==> (#[trigger] r.entries@[i]).name@ == names@[i]@,
            forall|i: int| 0 <= i < names@.len() ==> (#[trigger] r.entries@[i]).value == i + 1,
            r.total_value == names@.len(),
    {
        let mut entries: Vec<Entry> = Vec::new();
        let n = names.len();
        let mut i: usize = 0;
        while i < n
            invariant
                i <= n,
                n == names@.len(),
                entries@.len() == i,
                forall|k: int|
                    0 <= k < i ==> (#[trigger] entries@[k]).name@ == names@[k]@,
                forall|k: int| 0 <= k < i ==> (#[trigger] entries@[k]).value == 1,
            decreases n - i,
        {
            entries.push(Entry { name: names[i].clone(), value: 1 });
            i = i + 1;
        }
        proof {
            lemma_sum_ones(spec_values(entries@), entries@.len() as int);
            lemma_sum_ones_take(spec_values(entries@));
        }
        let r = Self::new(entries);
        r
    }

    /// The name selected for `index`: the index wraps around the total weight,
    /// and the first row whose running sum exceeds it wins.
    pub fn get(&self, index: u32) -> (r: &str)
        requires
            self.total_value > 0,
        ensures
            r@ == spec_pick(self.entries@, index % self.total_value),
    {
        let idx = index % self.total_value;
        let n = self.entries.len();
        let mut i: usize = 0;
        proof {
            assert(self.entries@.skip(0) =~= self.entries@);
        }
        while i < n
            invariant
                i <= n,
                n == self.entries@.len(),
                self.total_value > 0,
                idx == index % self.total_value,
                spec_pick(self.entries@, idx) == spec_pick(
                    self.entries@.skip(i as int),
                    idx,
                ),
            decreases n - i,
        {
            let entry = &self.entries[i];
            proof {
                assert(self.entries@.skip(i as int)[0] == self.entries@[i as int]);
            }
            if idx < entry.value {
                proof {
                    assert(spec_pick(self.entries@.skip(i as int), idx) == entry.name@);
                }
                return entry.name.as_str();
            }
            proof {
                assert(self.entries@.skip(i as int).drop_first() =~= self.entries@.skip(i + 1));
            }
            i = i + 1;
        }
        proof {
            assert(self.entries@.skip(n as int).len() == 0);
        }
        "IMPOSSIBLE"
    }
}

proof fn lemma_sum_ones(values: Seq<u32>, k: int)
    requires
        0 <= k <= values.len(),
        forall|i: int| 0 <= i < values.len() ==> values[i] == 1,
    ensures
        spec_sum(values.take(k)) == k,
    decreases k,
{
    if k == 0 {
        assert(values.take(0) =~= Seq::<u32>::empty());
    } else {
        lemma_sum_ones(values, k - 1);
        assert(values.take(k) =~= values.take(k - 1).push(values[k - 1]));
        lemma_sum_push(values.take(k - 1), values[k - 1]);
    }
}

proof fn lemma_sum_ones_take(values: Seq<u32>)
    requires
        forall|i: int| 0 <= i < values.len() ==> values[i] == 1,
    ensures
        forall|k: int| 0 <= k <= values.len() ==> spec_sum(#[trigger] values.take(k)) == k,
        spec_sum(values) == values.len(),
{
    assert forall|k: int| 0 <= k <= values.len() implies spec_sum(#[trigger] values.take(k))
        == k by {
        lemma_sum_ones(values, k);
    }
    lemma_sum_ones(values, values.len() as int);
    assert(values.take(values.len() as int) =~= values);
}

impl Default for NameGenerator {
    /// A three-name table with equal weights.
    fn default() -> (r: Self)
        ensures
            r.entries@.len() == 3,
            r.total_value == 3,
    {
        let mut names: Vec<String> = Vec::new();
        names.push(String::from_str("A"));
        names.push(String::from_str("B"));
        names.push(String::from_str("C"));
        Self::without_probability(names)
    }
}


/// The name/value records that the csv reader extracts from a text, in order,
/// after the leading header row. A pure function of the text.
pub uninterp spec fn csv_rows(text: Seq<char>) -> Seq<(Seq<char>, Seq<char>)>;

/// Relies on `csv::Reader` (crate `csv`): splits the text into
/// comma-separated records, skipping the leading header row, and hands back
/// the first two fields of each well-formed record.
#[verifier::external_body]
fn read_csv_rows(text: &str) -> (r: Vec<(String, String)>)
    ensures
        r@.map_values(|p: (String, String)| (p.0@, p.1@)) == csv_rows(text@),
{
    csv::Reader::from_reader(text.as_bytes())
        .records()
        .filter_map(|record| record.ok())
        .map(|record| (
            record.get(0).unwrap_or("").to_string(),
            record.get(1).unwrap_or("").to_string(),
        ))
        .collect()
}

/// The numeric value of a decimal digit character, or ten for anything else.
pub open spec fn spec_digit_val(c: char) -> nat {
    if c == '0' {
        0
    } else if c == '1' {
        1
    } else if c == '2' {
        2
    } else if c == '3' {
        3
    } else if c == '4' {
        4
    } else if c == '5' {
        5
    } else if c == '6' {
        6
    } else if c == '7' {
        7
    } else if c == '8' {
        8
    } else if c == '9' {
        9
    } else {
        10
    }
}

pub open spec fn spec_is_digit(c: char) -> bool {
    spec_digit_val(c) < 10
}

/// The number a digit string denotes, most significant digit first.
pub open spec fn spec_dec_value(s: Seq<char>) -> nat
    decreases s.len(),
{
    if s.len() == 0 {
        0
    } else {
        spec_dec_value(s.drop_last()) * 10 + spec_digit_val(s.last())
    }
}

/// Whether a string is a plain decimal number that fits a `u32`.
pub open spec fn spec_is_dec_u32(s: Seq<char>) -> bool {
    &&& s.len() > 0
    &&& forall|i: int| 0 <= i < s.len() ==> spec_is_digit(#[trigger] s[i])
    &&& spec_dec_value(s) <= u32::MAX
}

/// A longer digit prefix never denotes a smaller number.
proof fn lemma_dec_value_take_le(s: Seq<char>, k: int)
    requires
        0 <= k <= s.len(),
    ensures
        spec_dec_value(s.take(k)) <= spec_dec_value(s),
    decreases s.len() - k,
{
    if k == s.len() {
        assert(s.take(k) =~= s);
    } else {
        assert(s.take(k + 1).drop_last() =~= s.take(k));
        assert(s.take(k + 1).last() == s[k]);
        assert(spec_dec_value(s.take(k + 1)) == spec_dec_value(s.take(k)) * 10 + spec_digit_val(
            s[k],
        ));
        lemma_dec_value_take_le(s, k + 1);
    }
}

/// Read a decimal `u32`, accepting exactly the nonempty all-digit strings
/// whose value fits.
pub fn parse_u32(s: &str) -> (r: Option<u32>)
    ensures
        match r {
            Some(v) => spec_is_dec_u32(s@) && v == spec_dec_value(s@),
            None => !spec_is_dec_u32(s@),
        },
{
    let n = s.unicode_len();
    if n == 0 {
        return None;
    }
    let mut value: u32 = 0;
    let mut i: usize = 0;
    proof {
        assert(s@.take(0) =~= Seq::<char>::empty());
    }
    while i < n
        invariant
            i <= n,
            n == s@.len(),
            value == spec_dec_value(s@.take(i as int)),
            forall|k: int| 0 <= k < i ==> spec_is_digit(#[trigger] s@[k]),
        decreases n - i,
    {
        let c = s.get_char(i);
        let d: u32 = match c {
            '0' => 0,
            '1' => 1,
            '2' => 2,
            '3' => 3,
            '4' => 4,
            '5' => 5,
            '6' => 6,
            '7' => 7,
            '8' => 8,
            '9' => 9,
            _ => {
                proof {
                    assert(!spec_is_digit(s@[i as int]));
                }
                return None;
            },
        };
        proof {
            assert(d == spec_digit_val(s@[i as int]));
            assert(s@.take(i + 1).drop_last() =~= s@.take(i as int));
            assert(s@.take(i + 1).last() == s@[i as int]);
        }
        if value > (u32::MAX - d) / 10 {
            proof {
                assert(spec_dec_value(s@.take(i + 1)) == value * 10 + d);
                assert(spec_dec_value(s@.take(i + 1)) > u32::MAX) by {
                    assert(value * 10 >= ((u32::MAX - d) / 10 + 1) * 10) by (nonlinear_arith)
                        requires value >= (u32::MAX - d) / 10 + 1;
                    assert(((u32::MAX - d) / 10 + 1) * 10 + d > u32::MAX) by (nonlinear_arith)
                        requires 0 <= d < 10;
                }
                lemma_dec_value_take_le(s@, i + 1);
            }
            return None;
        }
        value = value * 10 + d;
        i = i + 1;
    }
    proof {
        assert(s@.take(n as int) =~= s@);
    }
    Some(value)
}

/// Whether every record of a row sequence carries a decimal weight, with a
/// total that fits a `u32`.
pub open spec fn spec_rows_ok(rows: Seq<(Seq<char>, Seq<char>)>) -> bool {
    &&& forall|i: int| 0 <= i < rows.len() ==> spec_is_dec_u32((#[trigger] rows[i]).1)
    &&& spec_sum(spec_row_values(rows)) <= u32::MAX
}

/// The weights of a row sequence.
pub open spec fn spec_row_values(rows: Seq<(Seq<char>, Seq<char>)>) -> Seq<u32> {
    rows.map_values(|row: (Seq<char>, Seq<char>)| spec_dec_value(row.1) as u32)
}

impl NameGenerator {
    /// Build the table the rows of a text describe, or nothing when a record
    /// carries no decimal weight or the weights overflow the total.
    pub fn try_parse(text: &str) -> (r: Option<Self>)
        ensures
            match r {
                Some(generator) => {
                    let rows = csv_rows(text@);
                    &&& spec_rows_ok(rows)
                    &&& generator.entries@.len() == rows.len()
                    &&& forall|i: int|
                        0 <= i < rows.len() ==> (#[trigger] generator.entries@[i]).name@
                            == rows[i].0
                    &&& forall|i: int|
                        0 <= i < rows.len() ==> (#[trigger] generator.entries@[i]).value
                            == spec_sum(spec_row_values(rows).take(i + 1))
                    &&& generator.total_value == spec_sum(spec_row_values(rows))
                },
                None => !spec_rows_ok(csv_rows(text@)),
            },
    {
        let rows = read_csv_rows(text);
        let ghost spec_rows = csv_rows(text@);
        let ghost values = spec_row_values(spec_rows);
        let mut total: u32 = 0;
        let n = rows.len();
        let mut i: usize = 0;
        proof {
            assert(values.take(0) =~= Seq::<u32>::empty());
        }
        while i < n
            invariant
                i <= n,
                n == rows@.len(),
                spec_rows == csv_rows(text@),
                values == spec_row_values(spec_rows),
                rows@.map_values(|p: (String, String)| (p.0@, p.1@)) == spec_rows,
                total == spec_sum(values.take(i as int)),
                forall|k: int| 0 <= k < i ==> spec_is_dec_u32((#[trigger] spec_rows[k]).1),
            decreases n - i,
        {
            let row = &rows[i];
            proof {
                assert(spec_rows[i as int] == (row.0@, row.1@));
            }
            let value = match parse_u32(row.1.as_str()) {
                Some(value) => value,
                None => {
                    return None;
                },
            };
            proof {
                assert(values[i as int] == value);
                assert(values.take(i + 1) =~= values.take(i as int).push(values[i as int]));
                lemma_sum_push(values.take(i as int), values[i as int]);
            }
            if value > u32::MAX - total {
                proof {
                    lemma_sum_take_le_all(values, i + 1);
                }
                return None;
            }
            total = total + value;
            i = i + 1;
        }
        proof {
            assert(values.take(n as int) =~= values);
        }
        Some(Self::parse(text))
    }

    /// Build the table the rows of a text describe; callers own the check
    /// that every record carries a decimal weight (see `try_parse`).
    pub fn parse(text: &str) -> (r: Self)
        requires
            spec_rows_ok(csv_rows(text@)),
        ensures
            ({
                let rows = csv_rows(text@);
                &&& r.entries@.len() == rows.len()
                &&& forall|i: int|
                    0 <= i < rows.len() ==> (#[trigger] r.entries@[i]).name@ == rows[i].0
                &&& forall|i: int|
                    0 <= i < rows.len() ==> (#[trigger] r.entries@[i]).value == spec_sum(
                        spec_row_values(rows).take(i + 1),
                    )
                &&& r.total_value == spec_sum(spec_row_values(rows))
            }),
    {
        let rows = read_csv_rows(text);
        let ghost spec_rows = csv_rows(text@);
        let ghost values = spec_row_values(spec_rows);
        let mut entries: Vec<Entry> = Vec::new();
        let n = rows.len();
        let mut i: usize = 0;
        while i < n
            invariant
                i <= n,
                n == rows@.len(),
                spec_rows == csv_rows(text@),
                values == spec_row_values(spec_rows),
                spec_rows_ok(spec_rows),
                rows@.map_values(|p: (String, String)| (p.0@, p.1@)) == spec_rows,
                entries@.len() == i,
                forall|k: int|
                    0 <= k < i ==> (#[trigger] entries@[k]).name == rows@[k].0
                        && entries@[k].value == values[k],
            decreases n - i,
        {
            let row = &rows[i];
            proof {
                assert(spec_rows[i as int] == (row.0@, row.1@));
            }
            let value = match parse_u32(row.1.as_str()) {
                Some(value) => value,
                None => {
                    proof {
                        assert(spec_is_dec_u32(spec_rows[i as int].1));
                        assert(false);
                    }
                    0
                },
            };
            proof {
                assert(values[i as int] == value);
            }
            entries.push(Entry { name: row.0.clone(), value });
            i = i + 1;
        }
        proof {
            assert(spec_values(entries@) =~= values);
            assert forall|k: int| 0 <= k < n implies (#[trigger] entries@[k]).name@
                == spec_rows[k].0 by {
                assert(spec_rows[k] == (rows@[k].0@, rows@[k].1@));
            }
        }
        Self::new(entries)
    }
}

/// When a prefix sum already overflows, the whole sum overflows.
proof fn lemma_sum_take_le_all(values: Seq<u32>, k: int)
    requires
        0 <= k <= values.len(),
        spec_sum(values.take(k)) > u32::MAX,
    ensures
        spec_sum(values) > u32::MAX,
{
    lemma_sum_take_le(values, k);
}

} // verus!
