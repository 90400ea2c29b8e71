//! Controlled-vocabulary and user parameters of mzML records.
use vstd::prelude::*;
use crate::error::{DataKind, ParseError};
use crate::text::str_eq;
use vstd::string::StrSliceExecFns;

verus! {

/// Value of the decimal digits of `s`, most significant first.
pub open spec fn digits_value(s: Seq<char>) -> int
    decreases s.len(),
{
    if s.len() == 0 {
        0
    } else {
        digits_value(s.drop_last()) * 10 + (s.last() as int - '0' as int)
    }
}

/// The text starts with `+` or `-`.
pub open spec fn has_sign(s: Seq<char>) -> bool {
    s.len() > 0 && (s[0] == '-' || s[0] == '+')
}

/// The text after its sign, if any.
pub open spec fn unsigned_part(s: Seq<char>) -> Seq<char> {
    if has_sign(s) {
        s.drop_first()
    } else {
        s
    }
}

/// Every character is an ASCII digit.
pub open spec fn all_digits(t: Seq<char>) -> bool {
    forall|i: int| 0 <= i < t.len() ==> '0' <= #[trigger] t[i] <= '9'
}

/// What `i64`'s `FromStr` makes of a text: an optional `+` or `-`, then one
/// or more ASCII digits and nothing else, of a value that fits.
pub open spec fn parsed_i64(s: Seq<char>) -> Option<i64> {
    let body = unsigned_part(s);
    let magnitude = digits_value(body);
    let v = if has_sign(s) && s[0] == '-' {
        -magnitude
    } else {
        magnitude
    };
    if body.len() == 0 || !all_digits(body) {
        None
    } else if i64::MIN <= v <= i64::MAX {
        Some(v as i64)
    } else {
        None
    }
}

/// The value of all-digit text is not negative and does not shrink when
/// more digits follow.
proof fn lemma_digits_grow(s: Seq<char>, i: int)
    requires
        0 <= i <= s.len(),
        forall|k: int| 0 <= k < s.len() ==> '0' <= #[trigger] s[k] <= '9',
    ensures
        0 <= digits_value(s.take(i)) <= digits_value(s),
    decreases s.len(),
{
    if s.len() == 0 {
        assert(s.take(i) =~= s);
    } else if i == s.len() {
        assert(s.take(i) =~= s);
        let t = s.drop_last();
        assert forall|k: int| 0 <= k < t.len() implies '0' <= #[trigger] t[k] <= '9' by {
            assert(t[k] == s[k]);
        }
        lemma_digits_grow(t, t.len() as int);
        assert(t.take(t.len() as int) =~= t);
    } else {
        let t = s.drop_last();
        assert forall|k: int| 0 <= k < t.len() implies '0' <= #[trigger] t[k] <= '9' by {
            assert(t[k] == s[k]);
        }
        lemma_digits_grow(t, i);
        assert(t.take(i) =~= s.take(i));
        lemma_digits_grow(t, t.len() as int);
        assert(t.take(t.len() as int) =~= t);
        assert('0' <= s.last() <= '9');
    }
}

/// The largest magnitude of an `i64`, that of `i64::MIN`.
const MAGNITUDE_LIMIT: u64 = 9223372036854775808;

/// Parses an optional `+` or `-` followed by one or more ASCII digits, of a
/// value that fits in an `i64`.
pub fn parse_i64(s: &str) -> (r: Option<i64>)
    ensures
        r == parsed_i64(s@),
{
    let n = s.unicode_len();
    if n == 0 {
        return None;
    }
    let c0 = s.get_char(0);
    let signed = c0 == '-' || c0 == '+';
    let negative = c0 == '-';
    let start: usize = if signed { 1 } else { 0 };
    let ghost body = unsigned_part(s@);
    assert(signed == has_sign(s@));
    assert(body =~= s@.subrange(start as int, n as int));
    if start == n {
        return None;
    }
    let mut acc: u64 = 0;
    let mut i: usize = start;
    assert(body.take(0) =~= Seq::<char>::empty());
    while i < n
        invariant
            n == s@.len(),
            start <= i <= n,
            start < n,
            body == s@.subrange(start as int, n as int),
            body == unsigned_part(s@),
            acc == digits_value(body.take(i - start)),
            acc <= MAGNITUDE_LIMIT,
            forall|k: int| 0 <= k < i - start ==> '0' <= #[trigger] body[k] <= '9',
        decreases n - i,
    {
        let c = s.get_char(i);
        assert(c == body[i - start]);
        if c < '0' || c > '9' {
            assert(!('0' <= body[i - start] <= '9'));
            assert(!all_digits(body));
            return None;
        }
        let d = (c as u32 - '0' as u32) as u64;
        let ghost k = (i - start) as int;
        assert(body.take(k + 1).drop_last() =~= body.take(k));
        assert(digits_value(body.take(k + 1)) == acc * 10 + d);
        if acc > (MAGNITUDE_LIMIT - d) / 10 {
            proof {
                assert(acc * 10 + d > MAGNITUDE_LIMIT) by (nonlinear_arith)
                    requires
                        acc > (MAGNITUDE_LIMIT - d) / 10,
                        d <= 9,
                ;
                if all_digits(body) {
                    lemma_digits_grow(body, k + 1);
                    assert(digits_value(body) > MAGNITUDE_LIMIT);
                    assert(-digits_value(body) < i64::MIN);
                    assert(digits_value(body) > i64::MAX);
                }
            }
            return None;
        }
        assert(acc * 10 + d <= MAGNITUDE_LIMIT) by (nonlinear_arith)
            requires
                acc <= (MAGNITUDE_LIMIT - d) / 10,
                d <= 9,
        ;
        acc = acc * 10 + d;
        i = i + 1;
    }
    assert(body.take(n - start) =~= body);
    assert(all_digits(body));
    if negative {
        if acc == MAGNITUDE_LIMIT {
            Some(i64::MIN)
        } else {
            Some(-(acc as i64))
        }
    } else if acc > 9223372036854775807 {
        None
    } else {
        Some(acc as i64)
    }
}

/// A controlled-vocabulary parameter.
#[derive(Debug, Clone)]
pub struct CVParam {
    pub accession: String,
    pub name: String,
    pub value: String,
    pub data_type: Option<String>,
    pub unit: Option<String>,
}

impl CVParam {
    pub fn new(accession: &str, name: &str, value: &str) -> (r: CVParam)
        ensures
            r.accession@ == accession@,
            r.name@ == name@,
            r.value@ == value@,
            r.data_type is None,
            r.unit is None,
    {
        CVParam {
            accession: accession.to_owned(),
            name: name.to_owned(),
            value: value.to_owned(),
            data_type: None,
            unit: None,
        }
    }

    pub fn with_data_type(self, data_type: &str) -> (r: CVParam)
        ensures
            r.accession == self.accession,
            r.name == self.name,
            r.value == self.value,
            r.data_type matches Some(t) && t@ == data_type@,
            r.unit == self.unit,
    {
        let mut p = self;
        p.data_type = Some(data_type.to_owned());
        p
    }

    pub fn with_unit(self, unit: &str) -> (r: CVParam)
        ensures
            r.accession == self.accession,
            r.name == self.name,
            r.value == self.value,
            r.data_type == self.data_type,
            r.unit matches Some(u) && u@ == unit@,
    {
        let mut p = self;
        p.unit = Some(unit.to_owned());
        p
    }

    /// The value as a 64-bit integer.
    pub fn as_i64(&self) -> (r: Result<i64, ParseError>)
        ensures
            match parsed_i64(self.value@) {
                Some(v) => r == Ok::<i64, ParseError>(v),
                None => r matches Err(ParseError::InvalidDataType { expected, actual })
                    && expected == DataKind::Integer && actual@ == self.value@,
            },
    {
        match parse_i64(self.value.as_str()) {
            Some(v) => Ok(v),
            None => Err(ParseError::InvalidDataType { expected: DataKind::Integer, actual: self.value.clone() }),
        }
    }

    pub fn as_string(&self) -> (r: &str)
        ensures
            r@ == self.value@,
    {
        self.value.as_str()
    }

    pub fn is_accession(&self, accession: &str) -> (r: bool)
        ensures
            r == (self.accession@ == accession@),
    {
        str_eq(self.accession.as_str(), accession)
    }

    pub fn is_name(&self, name: &str) -> (r: bool)
        ensures
            r == (self.name@ == name@),
    {
        str_eq(self.name.as_str(), name)
    }
}

/// A free-form named parameter.
#[derive(Debug, Clone)]
pub struct UserParam {
    pub name: String,
    pub value: String,
    pub data_type: Option<String>,
    pub unit: Option<String>,
}

impl UserParam {
    pub fn new(name: &str, value: &str) -> (r: UserParam)
        ensures
            r.name@ == name@,
            r.value@ == value@,
            r.data_type is None,
            r.unit is None,
    {
        UserParam { name: name.to_owned(), value: value.to_owned(), data_type: None, unit: None }
    }

    pub fn with_data_type(self, data_type: &str) -> (r: UserParam)
        ensures
            r.name == self.name,
            r.value == self.value,
            r.data_type matches Some(t) && t@ == data_type@,
            r.unit == self.unit,
    {
        let mut p = self;
        p.data_type = Some(data_type.to_owned());
        p
    }

    pub fn with_unit(self, unit: &str) -> (r: UserParam)
        ensures
            r.name == self.name,
            r.value == self.value,
            r.data_type == self.data_type,
            r.unit matches Some(u) && u@ == unit@,
    {
        let mut p = self;
        p.unit = Some(unit.to_owned());
        p
    }
}

/// `i` is the first parameter with accession `acc`.
pub open spec fn first_with_accession(params: Seq<CVParam>, acc: Seq<char>, i: int) -> bool {
    &&& 0 <= i < params.len()
    &&& params[i].accession@ == acc
    &&& forall|j: int| 0 <= j < i ==> (#[trigger] params[j]).accession@ != acc
}

/// No parameter has accession `acc`.
pub open spec fn lacks_accession(params: Seq<CVParam>, acc: Seq<char>) -> bool {
    forall|j: int| 0 <= j < params.len() ==> (#[trigger] params[j]).accession@ != acc
}

/// Index of the first parameter with accession `acc`.
pub fn find_accession(params: &Vec<CVParam>, acc: &str) -> (r: Option<usize>)
    ensures
        match r {
            Some(i) => first_with_accession(params@, acc@, i as int),
            None => lacks_accession(params@, acc@),
        },
{
    let mut i: usize = 0;
    while i < params.len()
        invariant
            i <= params@.len(),
            forall|j: int| 0 <= j < i ==> (#[trigger] params@[j]).accession@ != acc@,
        decreases params@.len() - i,
    {
        if params[i].is_accession(acc) {
            return Some(i);
        }
        i = i + 1;
    }
    None
}

} // verus!
