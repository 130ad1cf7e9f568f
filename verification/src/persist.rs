//! The persisted form of a forecast: a header line, then one line per day
//! with the date and four numbers of exactly six decimal digits.

use vstd::prelude::*;
use crate::calendar::{
    CivilDay, Date, day_of_text, is_digit, lemma_day_of_text_is_exact, lemma_text_round_trip,
    lemma_text_shape,
};

verus! {

/// The byte that separates the fields of a line.
pub const COMMA: u8 = 44;

/// The byte that ends a line.
pub const NEWLINE: u8 = 10;

/// Length of the header line, its newline included.
pub const HEADER_LEN: usize = 31;

/// One persisted day: the date, and each number in its text form.
#[derive(Clone, Debug)]
pub struct ForecastRecord {
    pub date: Date,
    pub mean: Vec<u8>,
    pub lower: Vec<u8>,
    pub upper: Vec<u8>,
    pub variance: Vec<u8>,
}

/// A persisted day as mathematical values.
pub struct RecordText {
    pub date: CivilDay,
    pub mean: Seq<u8>,
    pub lower: Seq<u8>,
    pub upper: Seq<u8>,
    pub variance: Seq<u8>,
}

impl View for ForecastRecord {
    type V = RecordText;

    open spec fn view(&self) -> RecordText {
        RecordText {
            date: self.date@,
            mean: self.mean@,
            lower: self.lower@,
            upper: self.upper@,
            variance: self.variance@,
        }
    }
}

/// What can go wrong between a forecast and its persisted form.
#[derive(Clone, Copy, Debug, PartialEq, Eq, Structural)]
pub enum PersistError {
    /// A record to be written holds a date off the calendar or a number
    /// that is not in the six-decimal form.
    InvalidRecord,
    /// The bytes do not start with the header line.
    MissingHeader,
    /// A line after the header is not a record.
    MalformedRecord,
    /// The header is followed by no record at all.
    Empty,
}

/// The header line: `date,mean,lower,upper,variance` and a newline.
#[verifier::opaque]
pub open spec fn header() -> Seq<u8> {
    seq![
        100u8, 97u8, 116u8, 101u8, 44u8, 109u8, 101u8, 97u8, 110u8, 44u8, 108u8, 111u8, 119u8,
        101u8, 114u8, 44u8, 117u8, 112u8, 112u8, 101u8, 114u8, 44u8, 118u8, 97u8, 114u8, 105u8,
        97u8, 110u8, 99u8, 101u8, 10u8,
    ]
}

/// A number with exactly six decimal digits: an optional minus sign, one or
/// more digits, a point, six digits.
pub open spec fn is_decimal6(s: Seq<u8>) -> bool {
    let start: int = if s.len() > 0 && s[0] == 45 {
        1
    } else {
        0
    };
    &&& s.len() >= start + 8
    &&& s[s.len() - 7] == 46
    &&& forall|i: int| start <= i < s.len() && i != s.len() - 7 ==> is_digit(#[trigger] s[i])
}

impl RecordText {
    /// The date is on the calendar and every number has six decimal digits.
    pub open spec fn valid(self) -> bool {
        &&& self.date.wf()
        &&& is_decimal6(self.mean)
        &&& is_decimal6(self.lower)
        &&& is_decimal6(self.upper)
        &&& is_decimal6(self.variance)
    }

    /// The fields, separated by commas.
    pub open spec fn body(self) -> Seq<u8> {
        self.date.text() + seq![COMMA] + self.mean + seq![COMMA] + self.lower + seq![COMMA]
            + self.upper + seq![COMMA] + self.variance
    }

    /// The line of the record: its body and a newline.
    pub open spec fn line(self) -> Seq<u8> {
        self.body() + seq![NEWLINE]
    }
}

/// The lines of a sequence of records, one after the other.
pub open spec fn lines(rs: Seq<RecordText>) -> Seq<u8>
    decreases rs.len(),
{
    if rs.len() == 0 {
        Seq::empty()
    } else {
        rs[0].line() + lines(rs.skip(1))
    }
}

/// The persisted form of a sequence of records.
pub open spec fn persisted(rs: Seq<RecordText>) -> Seq<u8> {
    header() + lines(rs)
}

/// Every record is valid.
pub open spec fn all_valid(rs: Seq<RecordText>) -> bool {
    forall|i: int| 0 <= i < rs.len() ==> (#[trigger] rs[i]).valid()
}

/// Index of the first `b` in `s` at or after `from`; the length of `s` where there is none.
pub open spec fn find(s: Seq<u8>, b: u8, from: int) -> int
    decreases s.len() - from,
{
    if from < 0 || from >= s.len() {
        s.len() as int
    } else if s[from] == b {
        from
    } else {
        find(s, b, from + 1)
    }
}

/// The record that a line without its newline spells, where it spells one.
pub open spec fn record_of(line: Seq<u8>) -> Option<RecordText> {
    let c1 = find(line, COMMA, 0);
    let c2 = find(line, COMMA, c1 + 1);
    let c3 = find(line, COMMA, c2 + 1);
    let c4 = find(line, COMMA, c3 + 1);
    if c4 < line.len() {
        let date = day_of_text(line.subrange(0, c1));
        let r = RecordText {
            date: date.unwrap(),
            mean: line.subrange(c1 + 1, c2),
            lower: line.subrange(c2 + 1, c3),
            upper: line.subrange(c3 + 1, c4),
            variance: line.subrange(c4 + 1, line.len() as int),
        };
        if date.is_some() && r.valid() {
            Some(r)
        } else {
            None
        }
    } else {
        None
    }
}

/// The records spelt by the lines of `s` from `pos` on, where every line is
/// a record and ends in a newline.
pub open spec fn records_from(s: Seq<u8>, pos: int) -> Option<Seq<RecordText>>
    decreases s.len() - pos,
{
    if pos < 0 || pos >= s.len() {
        Some(Seq::empty())
    } else {
        let nl = find(s, NEWLINE, pos);
        if nl >= s.len() || nl < pos {
            None
        } else {
            match record_of(s.subrange(pos, nl)) {
                None => None,
                Some(r) => match records_from(s, nl + 1) {
                    None => None,
                    Some(rest) => Some(seq![r] + rest),
                },
            }
        }
    }
}

/// What reading back a stretch of bytes gives.
pub open spec fn read_back(s: Seq<u8>) -> Result<Seq<RecordText>, PersistError> {
    if s.len() < HEADER_LEN || s.subrange(0, HEADER_LEN as int) != header() {
        Err(PersistError::MissingHeader)
    } else {
        match records_from(s, HEADER_LEN as int) {
            None => Err(PersistError::MalformedRecord),
            Some(rs) => if rs.len() == 0 {
                Err(PersistError::Empty)
            } else {
                Ok(rs)
            },
        }
    }
}

/// The header line has 31 bytes.
pub proof fn lemma_header_len()
    ensures
        header().len() == HEADER_LEN,
{
    reveal(header);
}

/// `find` answers with the least index at or after `from` that holds the byte.
pub proof fn lemma_find_bounds(s: Seq<u8>, b: u8, from: int)
    requires
        0 <= from <= s.len(),
    ensures
        from <= find(s, b, from) <= s.len(),
        find(s, b, from) < s.len() ==> s[find(s, b, from)] == b,
        forall|i: int| from <= i < find(s, b, from) ==> s[i] != b,
    decreases s.len() - from,
{
    if from < s.len() && s[from] != b {
        lemma_find_bounds(s, b, from + 1);
    }
}

/// An index that holds the byte, with none before it, is what `find` answers.
pub proof fn lemma_find_is(s: Seq<u8>, b: u8, from: int, at: int)
    requires
        0 <= from <= at <= s.len(),
        forall|i: int| from <= i < at ==> s[i] != b,
        at < s.len() ==> s[at] == b,
    ensures
        find(s, b, from) == at,
    decreases at - from,
{
    if from < at {
        lemma_find_is(s, b, from + 1, at);
    }
}

/// A six-decimal number holds neither a comma nor a newline.
pub proof fn lemma_decimal6_is_plain(s: Seq<u8>)
    requires
        is_decimal6(s),
    ensures
        forall|i: int| 0 <= i < s.len() ==> #[trigger] s[i] != COMMA && s[i] != NEWLINE,
{
    assert forall|i: int| 0 <= i < s.len() implies #[trigger] s[i] != COMMA && s[i] != NEWLINE by {
        if i == 0 && s[0] == 45 {
        } else if i == s.len() - 7 {
        } else {
            assert(is_digit(s[i]));
        }
    }
}

/// The body of a valid record holds no newline, and its commas stand
/// exactly between the fields.
#[verifier::rlimit(50)]
pub proof fn lemma_body_shape(r: RecordText)
    requires
        r.valid(),
    ensures
        forall|i: int| 0 <= i < r.body().len() ==> #[trigger] r.body()[i] != NEWLINE,
        record_of(r.body()) == Some(r),
{
    let d = r.date.text();
    let line = r.body();
    lemma_text_shape(r.date);
    lemma_decimal6_is_plain(r.mean);
    lemma_decimal6_is_plain(r.lower);
    lemma_decimal6_is_plain(r.upper);
    lemma_decimal6_is_plain(r.variance);
    let c1 = d.len() as int;
    let c2 = c1 + 1 + r.mean.len();
    let c3 = c2 + 1 + r.lower.len();
    let c4 = c3 + 1 + r.upper.len();
    let n = c4 + 1 + r.variance.len();
    assert(line.len() == n);
    assert forall|i: int| 0 <= i < n implies #[trigger] line[i] == (if i < c1 {
        d[i]
    } else if i == c1 {
        COMMA
    } else if i < c2 {
        r.mean[i - c1 - 1]
    } else if i == c2 {
        COMMA
    } else if i < c3 {
        r.lower[i - c2 - 1]
    } else if i == c3 {
        COMMA
    } else if i < c4 {
        r.upper[i - c3 - 1]
    } else if i == c4 {
        COMMA
    } else {
        r.variance[i - c4 - 1]
    }) by {}
    assert forall|i: int| 0 <= i < c1 implies d[i] != COMMA && d[i] != NEWLINE by {
        if i != 4 && i != 7 {
            assert(48 <= d[i] <= 57);
        }
    }
    lemma_find_is(line, COMMA, 0, c1);
    lemma_find_is(line, COMMA, c1 + 1, c2);
    lemma_find_is(line, COMMA, c2 + 1, c3);
    lemma_find_is(line, COMMA, c3 + 1, c4);
    assert(line.subrange(0, c1) =~= d);
    assert(line.subrange(c1 + 1, c2) =~= r.mean);
    assert(line.subrange(c2 + 1, c3) =~= r.lower);
    assert(line.subrange(c3 + 1, c4) =~= r.upper);
    assert(line.subrange(c4 + 1, n) =~= r.variance);
    lemma_text_round_trip(r.date);
}

/// A line that spells a record is the body of that record, and the record is valid.
#[verifier::rlimit(50)]
pub proof fn lemma_record_of_is_exact(line: Seq<u8>)
    requires
        record_of(line).is_some(),
    ensures
        record_of(line).unwrap().valid(),
        record_of(line).unwrap().body() == line,
{
    let r = record_of(line).unwrap();
    let c1 = find(line, COMMA, 0);
    lemma_find_bounds(line, COMMA, 0);
    let c2 = find(line, COMMA, c1 + 1);
    let c3 = find(line, COMMA, c2 + 1);
    let c4 = find(line, COMMA, c3 + 1);
    if c1 < line.len() {
        lemma_find_bounds(line, COMMA, c1 + 1);
        if c2 < line.len() {
            lemma_find_bounds(line, COMMA, c2 + 1);
            if c3 < line.len() {
                lemma_find_bounds(line, COMMA, c3 + 1);
            }
        }
    }
    lemma_day_of_text_is_exact(line.subrange(0, c1));
    assert(r.body() =~= line);
}

/// Searching from a position is searching the suffix that starts there.
pub proof fn lemma_find_in_suffix(s: Seq<u8>, b: u8, pos: int, from: int)
    requires
        0 <= pos <= s.len(),
        0 <= from <= s.len() - pos,
    ensures
        find(s, b, pos + from) == pos + find(s.skip(pos), b, from),
    decreases s.len() - pos - from,
{
    let t = s.skip(pos);
    if from < t.len() {
        assert(t[from] == s[pos + from]);
        if s[pos + from] != b {
            lemma_find_in_suffix(s, b, pos, from + 1);
        }
    }
}

/// Reading records from a position is reading the suffix from its start.
#[verifier::rlimit(50)]
pub proof fn lemma_records_from_suffix(s: Seq<u8>, pos: int)
    requires
        0 <= pos <= s.len(),
    ensures
        records_from(s, pos) == records_from(s.skip(pos), 0),
    decreases s.len() - pos,
{
    let t = s.skip(pos);
    if pos < s.len() {
        lemma_find_in_suffix(s, NEWLINE, pos, 0);
        lemma_find_bounds(t, NEWLINE, 0);
        let nl = find(t, NEWLINE, 0);
        if nl < t.len() {
            assert(s.subrange(pos, pos + nl) =~= t.subrange(0, nl));
            lemma_records_from_suffix(s, pos + nl + 1);
            lemma_records_from_suffix(t, nl + 1);
            assert(s.skip(pos + nl + 1) =~= t.skip(nl + 1));
        }
    }
}

/// A line that spells a record, followed by bytes that spell more records,
/// spells that record and then the others.
#[verifier::rlimit(50)]
pub proof fn lemma_line_then_rest(
    body: Seq<u8>,
    r: RecordText,
    tail: Seq<u8>,
    rest: Seq<RecordText>,
)
    requires
        forall|i: int| 0 <= i < body.len() ==> #[trigger] body[i] != NEWLINE,
        record_of(body) == Some(r),
        records_from(tail, 0) == Some(rest),
    ensures
        records_from(body + seq![NEWLINE] + tail, 0) == Some(seq![r] + rest),
{
    let s = body + seq![NEWLINE] + tail;
    let n = body.len() as int;
    assert forall|i: int| 0 <= i < n implies s[i] != NEWLINE by {
        assert(s[i] == body[i]);
    }
    assert(s[n] == NEWLINE);
    lemma_find_is(s, NEWLINE, 0, n);
    assert(s.subrange(0, n) =~= body);
    lemma_records_from_suffix(s, n + 1);
    assert(s.skip(n + 1) =~= tail);
}

/// Reading the lines of valid records gives the records back.
#[verifier::rlimit(50)]
pub proof fn lemma_lines_round_trip(rs: Seq<RecordText>)
    requires
        all_valid(rs),
    ensures
        records_from(lines(rs), 0) == Some(rs),
    decreases rs.len(),
{
    if rs.len() == 0 {
        assert(rs =~= Seq::empty());
    } else {
        let r = rs[0];
        let rest = rs.skip(1);
        assert(r.valid());
        assert(all_valid(rest)) by {
            assert forall|i: int| 0 <= i < rest.len() implies (#[trigger] rest[i]).valid() by {
                assert(rest[i] == rs[i + 1]);
            }
        }
        lemma_lines_round_trip(rest);
        lemma_body_shape(r);
        lemma_line_then_rest(r.body(), r, lines(rest), rest);
        assert(lines(rs) == r.line() + lines(rest));
        assert(r.line() == r.body() + seq![NEWLINE]);
        assert(seq![r] + rest =~= rs);
    }
}

/// A valid record whose body stands before a newline, followed by the
/// lines of valid records, makes the lines of all of them.
#[verifier::rlimit(50)]
pub proof fn lemma_prepend_line(r: RecordText, rest: Seq<RecordText>, s: Seq<u8>, pos: int, nl: int)
    requires
        0 <= pos <= nl < s.len(),
        s[nl] == NEWLINE,
        r.valid(),
        r.body() == s.subrange(pos, nl),
        all_valid(rest),
        lines(rest) == s.skip(nl + 1),
    ensures
        all_valid(seq![r] + rest),
        lines(seq![r] + rest) == s.skip(pos),
{
    let rs = seq![r] + rest;
    assert(rs[0] == r);
    assert(rs.skip(1) =~= rest);
    assert forall|i: int| 0 <= i < rs.len() implies (#[trigger] rs[i]).valid() by {
        if i > 0 {
            assert(rs[i] == rest[i - 1]);
        }
    }
    assert(lines(rs) == rs[0].line() + lines(rs.skip(1)));
    assert(s.subrange(pos, nl) + seq![NEWLINE] + s.skip(nl + 1) =~= s.skip(pos));
}

/// Bytes that spell records are the lines of those records, and the records are valid.
#[verifier::rlimit(50)]
pub proof fn lemma_records_from_is_exact(s: Seq<u8>, pos: int)
    requires
        0 <= pos <= s.len(),
        records_from(s, pos).is_some(),
    ensures
        all_valid(records_from(s, pos).unwrap()),
        lines(records_from(s, pos).unwrap()) == s.skip(pos),
    decreases s.len() - pos,
{
    if pos >= s.len() {
        assert(s.skip(pos) =~= Seq::empty());
    } else {
        lemma_find_bounds(s, NEWLINE, pos);
        let nl = find(s, NEWLINE, pos);
        let line = s.subrange(pos, nl);
        lemma_record_of_is_exact(line);
        lemma_records_from_is_exact(s, nl + 1);
        lemma_prepend_line(
            record_of(line).unwrap(),
            records_from(s, nl + 1).unwrap(),
            s,
            pos,
            nl,
        );
    }
}

/// Round trip: what is written for valid records, at least one of them, is
/// read back as the same records.
#[verifier::rlimit(50)]
pub proof fn lemma_round_trip(rs: Seq<RecordText>)
    requires
        all_valid(rs),
        rs.len() > 0,
    ensures
        read_back(persisted(rs)) == Ok::<Seq<RecordText>, PersistError>(rs),
{
    let s = persisted(rs);
    lemma_header_len();
    assert(s.subrange(0, HEADER_LEN as int) =~= header());
    lemma_records_from_suffix(s, HEADER_LEN as int);
    assert(s.skip(HEADER_LEN as int) =~= lines(rs));
    lemma_lines_round_trip(rs);
}

/// Bytes that are read back as records are the persisted form of those
/// records: nothing but the form that is written is ever accepted.
#[verifier::rlimit(50)]
pub proof fn lemma_read_back_is_exact(s: Seq<u8>)
    requires
        read_back(s).is_ok(),
    ensures
        all_valid(read_back(s).unwrap()),
        read_back(s).unwrap().len() > 0,
        persisted(read_back(s).unwrap()) == s,
{
    lemma_records_from_is_exact(s, HEADER_LEN as int);
    assert(s.subrange(0, HEADER_LEN as int) + s.skip(HEADER_LEN as int) =~= s);
}

/// The records of a vector as mathematical values.
pub open spec fn views(rs: Seq<ForecastRecord>) -> Seq<RecordText> {
    Seq::new(rs.len(), |i: int| rs[i]@)
}

/// The lines of records with one more record are the lines of the records
/// and then the line of that one.
pub proof fn lemma_lines_push(rs: Seq<RecordText>, r: RecordText)
    ensures
        lines(rs.push(r)) == lines(rs) + r.line(),
    decreases rs.len(),
{
    let all = rs.push(r);
    if rs.len() == 0 {
        assert(all.skip(1) =~= Seq::empty());
        assert(lines(all.skip(1)) =~= Seq::empty());
        assert(lines(all) =~= r.line());
        assert(lines(rs) + r.line() =~= r.line());
    } else {
        assert(all.skip(1) =~= rs.skip(1).push(r));
        lemma_lines_push(rs.skip(1), r);
        assert(all[0] == rs[0]);
        assert(rs[0].line() + (lines(rs.skip(1)) + r.line()) =~= (rs[0].line() + lines(
            rs.skip(1),
        )) + r.line());
    }
}

fn find_byte(v: &Vec<u8>, b: u8, from: usize) -> (at: usize)
    ensures
        at == find(v@, b, from as int),
        at <= v.len(),
        from <= v.len() ==> from <= at,
        at < v.len() ==> v[at as int] == b,
{
    if from >= v.len() {
        return v.len();
    }
    let mut i: usize = from;
    while i < v.len() && v[i] != b
        invariant
            from <= i <= v.len(),
            find(v@, b, from as int) == find(v@, b, i as int),
        decreases v.len() - i,
    {
        i = i + 1;
    }
    i
}

fn copy_range(v: &Vec<u8>, from: usize, to: usize) -> (out: Vec<u8>)
    requires
        from <= to <= v.len(),
    ensures
        out@ == v@.subrange(from as int, to as int),
{
    let mut out: Vec<u8> = Vec::new();
    let mut i: usize = from;
    while i < to
        invariant
            from <= i <= to <= v.len(),
            out@ == v@.subrange(from as int, i as int),
        decreases to - i,
    {
        out.push(v[i]);
        assert(out@ =~= v@.subrange(from as int, i + 1));
        i = i + 1;
    }
    assert(out@ =~= v@.subrange(from as int, to as int));
    out
}

fn append(out: &mut Vec<u8>, src: &Vec<u8>)
    ensures
        final(out)@ == old(out)@ + src@,
{
    let mut i: usize = 0;
    while i < src.len()
        invariant
            i <= src.len(),
            out@ == old(out)@ + src@.subrange(0, i as int),
        decreases src.len() - i,
    {
        out.push(src[i]);
        assert(out@ =~= old(out)@ + src@.subrange(0, i + 1));
        i = i + 1;
    }
    assert(out@ =~= old(out)@ + src@);
}

fn header_bytes() -> (h: Vec<u8>)
    ensures
        h@ == header(),
{
    let mut h: Vec<u8> = Vec::new();
    h.push(100u8);
    h.push(97u8);
    h.push(116u8);
    h.push(101u8);
    h.push(44u8);
    h.push(109u8);
    h.push(101u8);
    h.push(97u8);
    h.push(110u8);
    h.push(44u8);
    h.push(108u8);
    h.push(111u8);
    h.push(119u8);
    h.push(101u8);
    h.push(114u8);
    h.push(44u8);
    h.push(117u8);
    h.push(112u8);
    h.push(112u8);
    h.push(101u8);
    h.push(114u8);
    h.push(44u8);
    h.push(118u8);
    h.push(97u8);
    h.push(114u8);
    h.push(105u8);
    h.push(97u8);
    h.push(110u8);
    h.push(99u8);
    h.push(101u8);
    h.push(10u8);
    proof {
        reveal(header);
    }
    assert(h@ =~= header());
    h
}

fn starts_with_header(bytes: &Vec<u8>) -> (b: bool)
    ensures
        b == (bytes.len() >= HEADER_LEN && bytes@.subrange(0, HEADER_LEN as int) == header()),
{
    if bytes.len() < HEADER_LEN {
        return false;
    }
    let h = header_bytes();
    proof {
        lemma_header_len();
    }
    let ghost head = bytes@.subrange(0, HEADER_LEN as int);
    let mut i: usize = 0;
    while i < HEADER_LEN
        invariant
            i <= HEADER_LEN <= bytes.len(),
            h@ == header(),
            h.len() == HEADER_LEN,
            head == bytes@.subrange(0, HEADER_LEN as int),
            forall|k: int| 0 <= k < i ==> head[k] == h[k],
        decreases HEADER_LEN - i,
    {
        if bytes[i] != h[i] {
            assert(head[i as int] != h@[i as int]);
            return false;
        }
        i = i + 1;
    }
    assert(head =~= h@);
    true
}

/// Decides whether a text is a number with exactly six decimal digits.
pub fn is_six_decimal(text: &Vec<u8>) -> (b: bool)
    ensures
        b == is_decimal6(text@),
{
    let n = text.len();
    let start: usize = if n > 0 && text[0] == 45 {
        1
    } else {
        0
    };
    if n < start + 8 {
        return false;
    }
    if text[n - 7] != 46 {
        return false;
    }
    let mut i: usize = start;
    while i < n
        invariant
            start <= i <= n,
            n == text.len(),
            n >= start + 8,
            start == (if n > 0 && text[0] == 45 {
                1usize
            } else {
                0usize
            }),
            text[n - 7] == 46,
            forall|k: int| start <= k < i && k != n - 7 ==> is_digit(#[trigger] text[k]),
        decreases n - i,
    {
        if i != n - 7 && !(48 <= text[i] && text[i] <= 57) {
            assert(!is_digit(text[i as int]));
            return false;
        }
        i = i + 1;
    }
    true
}

impl ForecastRecord {
    /// The date is on the calendar and every number has six decimal digits.
    pub open spec fn valid(self) -> bool {
        self@.valid()
    }

    /// Decides whether the record can be persisted.
    pub fn is_valid(&self) -> (b: bool)
        ensures
            b == self.valid(),
    {
        self.date.is_valid() && is_six_decimal(&self.mean) && is_six_decimal(&self.lower)
            && is_six_decimal(&self.upper) && is_six_decimal(&self.variance)
    }

    /// The line of the record, as it is persisted.
    #[verifier::rlimit(50)]
    pub fn to_line(&self) -> (out: Vec<u8>)
        requires
            self.valid(),
        ensures
            out@ == self@.line(),
    {
        let mut out = self.date.to_text();
        out.push(COMMA);
        append(&mut out, &self.mean);
        out.push(COMMA);
        append(&mut out, &self.lower);
        out.push(COMMA);
        append(&mut out, &self.upper);
        out.push(COMMA);
        append(&mut out, &self.variance);
        out.push(NEWLINE);
        assert(out@ =~= self@.line());
        out
    }

    /// Reads a record from a line without its newline: `Some` exactly where
    /// the line is the body of a valid record, and then that record.
    #[verifier::rlimit(50)]
    pub fn parse(line: &Vec<u8>) -> (r: Option<ForecastRecord>)
        ensures
            r.is_some() <==> record_of(line@).is_some(),
            r.is_some() ==> r.unwrap()@ == record_of(line@).unwrap(),
            r.is_some() ==> r.unwrap().valid() && r.unwrap()@.body() == line@,
            r.is_none() ==> forall|t: RecordText| t.valid() ==> #[trigger] t.body() != line@,
    {
        proof {
            if record_of(line@).is_some() {
                lemma_record_of_is_exact(line@);
            } else {
                assert forall|t: RecordText| t.valid() implies #[trigger] t.body() != line@ by {
                    lemma_body_shape(t);
                }
            }
        }
        let n = line.len();
        let c1 = find_byte(line, COMMA, 0);
        if c1 >= n {
            return None;
        }
        let c2 = find_byte(line, COMMA, c1 + 1);
        if c2 >= n {
            return None;
        }
        let c3 = find_byte(line, COMMA, c2 + 1);
        if c3 >= n {
            return None;
        }
        let c4 = find_byte(line, COMMA, c3 + 1);
        if c4 >= n {
            return None;
        }
        let date = match Date::parse_range(line, 0, c1) {
            Some(d) => d,
            None => {
                return None;
            },
        };
        let mean = copy_range(line, c1 + 1, c2);
        let lower = copy_range(line, c2 + 1, c3);
        let upper = copy_range(line, c3 + 1, c4);
        let variance = copy_range(line, c4 + 1, n);
        if is_six_decimal(&mean) && is_six_decimal(&lower) && is_six_decimal(&upper)
            && is_six_decimal(&variance) {
            Some(ForecastRecord { date, mean, lower, upper, variance })
        } else {
            None
        }
    }
}

/// Writes the persisted form of a forecast: the header line, then one line
/// per record. Fails, writing nothing, where a record is not valid. What is
/// written for at least one record is read back as the same records.
#[verifier::rlimit(50)]
pub fn write_forecast_csv(records: &Vec<ForecastRecord>) -> (r: Result<Vec<u8>, PersistError>)
    ensures
        r.is_ok() <==> all_valid(views(records@)),
        r.is_ok() ==> r.unwrap()@ == persisted(views(records@)),
        r.is_err() ==> r == Err::<Vec<u8>, PersistError>(PersistError::InvalidRecord),
        r.is_ok() && records.len() > 0 ==> read_back(r.unwrap()@) == Ok::<
            Seq<RecordText>,
            PersistError,
        >(views(records@)),
{
    let ghost all = views(records@);
    let mut out = header_bytes();
    assert(all.take(0) =~= Seq::<RecordText>::empty());
    assert(header() + lines(all.take(0)) =~= header());
    let mut i: usize = 0;
    while i < records.len()
        invariant
            i <= records.len(),
            all == views(records@),
            out@ == header() + lines(all.take(i as int)),
            forall|k: int| 0 <= k < i ==> (#[trigger] all[k]).valid(),
        decreases records.len() - i,
    {
        if !records[i].is_valid() {
            assert(!all[i as int].valid());
            return Err(PersistError::InvalidRecord);
        }
        let line = records[i].to_line();
        proof {
            lemma_lines_push(all.take(i as int), all[i as int]);
            assert(all.take(i as int).push(all[i as int]) =~= all.take(i + 1));
            assert((header() + lines(all.take(i as int))) + line@ =~= header() + (lines(
                all.take(i as int),
            ) + line@));
        }
        append(&mut out, &line);
        i = i + 1;
    }
    proof {
        assert(all.take(records.len() as int) =~= all);
        if records.len() > 0 {
            lemma_round_trip(all);
        }
    }
    Ok(out)
}

/// Reads a persisted forecast. Succeeds exactly on the bytes that
/// [`write_forecast_csv`] writes for at least one valid record, and then
/// gives those records; a header with nothing after it is an error.
#[verifier::rlimit(50)]
pub fn read_forecast_csv(bytes: &Vec<u8>) -> (r: Result<Vec<ForecastRecord>, PersistError>)
    ensures
        match read_back(bytes@) {
            Ok(rs) => r.is_ok() && views(r.unwrap()@) == rs,
            Err(e) => r == Err::<Vec<ForecastRecord>, PersistError>(e),
        },
        r.is_ok() ==> r.unwrap().len() > 0 && all_valid(views(r.unwrap()@)) && persisted(
            views(r.unwrap()@),
        ) == bytes@,
{
    proof {
        if read_back(bytes@).is_ok() {
            lemma_read_back_is_exact(bytes@);
        }
    }
    if !starts_with_header(bytes) {
        return Err(PersistError::MissingHeader);
    }
    let ghost s = bytes@;
    let mut out: Vec<ForecastRecord> = Vec::new();
    let mut pos: usize = HEADER_LEN;
    while pos < bytes.len()
        invariant
            HEADER_LEN <= pos <= bytes.len(),
            s == bytes@,
            s.subrange(0, HEADER_LEN as int) == header(),
            records_from(s, HEADER_LEN as int) == (match records_from(s, pos as int) {
                None => None::<Seq<RecordText>>,
                Some(rest) => Some(views(out@) + rest),
            }),
        decreases bytes.len() - pos,
    {
        let nl = find_byte(bytes, NEWLINE, pos);
        if nl >= bytes.len() {
            return Err(PersistError::MalformedRecord);
        }
        let line = copy_range(bytes, pos, nl);
        match ForecastRecord::parse(&line) {
            None => {
                return Err(PersistError::MalformedRecord);
            },
            Some(record) => {
                proof {
                    let r = record_of(s.subrange(pos as int, nl as int)).unwrap();
                    let before = views(out@);
                    let after = views(out@.push(record));
                    assert(after =~= before.push(r));
                    match records_from(s, nl + 1) {
                        None => {},
                        Some(rest) => {
                            assert(before + (seq![r] + rest) =~= after + rest);
                        },
                    }
                }
                out.push(record);
                pos = nl + 1;
            },
        }
    }
    proof {
        assert(views(out@) + Seq::<RecordText>::empty() =~= views(out@));
    }
    if out.len() == 0 {
        return Err(PersistError::Empty);
    }
    Ok(out)
}

} // verus!
