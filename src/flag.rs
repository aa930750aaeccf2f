use vstd::prelude::*;

use crate::error::FlagError;
use crate::text::{chars_of, check_float_text, is_float_text, long_form, make_long, make_short, short_form};

verus! {

/// The type of a flag: whether it takes a value token, and how that value is read.
#[derive(Clone, Copy, Debug, PartialEq, Eq, Structural)]
pub enum FlagType {
    Bool,
    String,
    Int,
    Uint,
    Float,
}

/// A value read for a flag. A float is kept as its checked decimal text, so
/// that the library itself does no floating-point arithmetic.
#[derive(Clone, Debug, PartialEq)]
pub enum FlagValue {
    Bool(bool),
    String(String),
    Int(isize),
    Uint(usize),
    Float(String),
}

/// The mathematical value of a `FlagValue`.
pub enum FlagValueModel {
    Bool(bool),
    String(Seq<char>),
    Int(isize),
    Uint(usize),
    Float(Seq<char>),
}

impl View for FlagValue {
    type V = FlagValueModel;

    open spec fn view(&self) -> FlagValueModel {
        match self {
            FlagValue::Bool(b) => FlagValueModel::Bool(*b),
            FlagValue::String(s) => FlagValueModel::String(s@),
            FlagValue::Int(i) => FlagValueModel::Int(*i),
            FlagValue::Uint(u) => FlagValueModel::Uint(*u),
            FlagValue::Float(s) => FlagValueModel::Float(s@),
        }
    }
}

/// What one occurrence (or the absence) of a flag produced.
pub type Outcome = Result<FlagValueModel, FlagError>;

pub open spec fn outcome_view(r: Result<FlagValue, FlagError>) -> Outcome {
    match r {
        Ok(v) => Ok(v@),
        Err(e) => Err(e),
    }
}

/// A flag declaration: `--name`, plus `-a` / `--a` for each alias `a`.
pub struct Flag {
    pub name: String,
    pub description: Option<String>,
    pub flag_type: FlagType,
    pub alias: Option<Vec<String>>,
    pub multiple: bool,
}

/// The part of a flag declaration that parsing depends on.
pub struct FlagModel {
    pub name: Seq<char>,
    pub aliases: Seq<Seq<char>>,
    pub flag_type: FlagType,
    pub multiple: bool,
}

pub open spec fn strings_view(v: Option<Vec<String>>) -> Seq<Seq<char>> {
    match v {
        Some(v) => v@.map_values(|s: String| s@),
        None => Seq::empty(),
    }
}

impl View for Flag {
    type V = FlagModel;

    open spec fn view(&self) -> FlagModel {
        FlagModel {
            name: self.name@,
            aliases: strings_view(self.alias),
            flag_type: self.flag_type,
            multiple: self.multiple,
        }
    }
}

impl FlagModel {
    /// The token `t` names this flag.
    pub open spec fn names(self, t: Seq<char>) -> bool {
        t == long_form(self.name) || exists|i: int|
            0 <= i < self.aliases.len() && (t == short_form(#[trigger] self.aliases[i]) || t
                == long_form(self.aliases[i]))
    }

    /// `i` is the position of the first token of `args` that names this flag.
    pub open spec fn is_first_match(self, args: Seq<Seq<char>>, i: int) -> bool {
        &&& 0 <= i < args.len()
        &&& self.names(args[i])
        &&& forall|j: int| 0 <= j < i ==> !self.names(#[trigger] args[j])
    }

    pub open spec fn first_match(self, args: Seq<Seq<char>>) -> Option<int> {
        if exists|i: int| self.is_first_match(args, i) {
            Some(choose|i: int| self.is_first_match(args, i))
        } else {
            None
        }
    }
}

pub proof fn lemma_first_match_unique(f: FlagModel, args: Seq<Seq<char>>, i: int)
    requires
        f.is_first_match(args, i),
    ensures
        f.first_match(args) == Some(i),
{
    let c = choose|k: int| f.is_first_match(args, k);
    assert(f.is_first_match(args, c));
    if c < i {
        assert(!f.names(args[c]));
    } else if c > i {
        assert(!f.names(args[i]));
    }
}

pub open spec fn is_digit(c: char) -> bool {
    '0' <= c && c <= '9'
}

pub open spec fn digit_value(c: char) -> int {
    c as int - '0' as int
}

/// A non-empty run of decimal digits.
pub open spec fn all_digits(s: Seq<char>) -> bool {
    s.len() > 0 && forall|i: int| 0 <= i < s.len() ==> is_digit(#[trigger] s[i])
}

/// The number that a run of decimal digits writes.
pub open spec fn digits_value(s: Seq<char>) -> int
    decreases s.len(),
{
    if s.len() == 0 {
        0
    } else {
        digits_value(s.drop_last()) * 10 + digit_value(s.last())
    }
}

/// The integer a signed decimal text writes: an optional `+` or `-`, then digits.
pub open spec fn signed_value(s: Seq<char>) -> Option<int> {
    if s.len() > 0 && s[0] == '-' && all_digits(s.drop_first()) {
        Some(-digits_value(s.drop_first()))
    } else if s.len() > 0 && s[0] == '+' && all_digits(s.drop_first()) {
        Some(digits_value(s.drop_first()))
    } else if all_digits(s) {
        Some(digits_value(s))
    } else {
        None
    }
}

/// The integer an unsigned decimal text writes: an optional `+`, then digits.
pub open spec fn unsigned_value(s: Seq<char>) -> Option<int> {
    if s.len() > 0 && s[0] == '+' && all_digits(s.drop_first()) {
        Some(digits_value(s.drop_first()))
    } else if all_digits(s) {
        Some(digits_value(s))
    } else {
        None
    }
}

/// How the raw value token (if any) of one occurrence becomes an outcome.
pub open spec fn coerce(ty: FlagType, raw: Option<Seq<char>>) -> Outcome {
    match ty {
        FlagType::Bool => Ok(FlagValueModel::Bool(true)),
        _ => match raw {
            None => Err(FlagError::NotFound),
            Some(s) => match ty {
                FlagType::String => Ok(FlagValueModel::String(s)),
                FlagType::Int => match signed_value(s) {
                    Some(n) => if isize::MIN <= n <= isize::MAX {
                        Ok(FlagValueModel::Int(n as isize))
                    } else {
                        Err(FlagError::ValueTypeError)
                    },
                    None => Err(FlagError::ValueTypeError),
                },
                FlagType::Uint => match unsigned_value(s) {
                    Some(n) => if 0 <= n <= usize::MAX {
                        Ok(FlagValueModel::Uint(n as usize))
                    } else {
                        Err(FlagError::ValueTypeError)
                    },
                    None => Err(FlagError::ValueTypeError),
                },
                _ => if is_float_text(s) {
                    Ok(FlagValueModel::Float(s))
                } else {
                    Err(FlagError::ValueTypeError)
                },
            },
        },
    }
}

proof fn lemma_digits_prefix(s: Seq<char>, k: int)
    requires
        all_digits(s),
        0 <= k <= s.len(),
    ensures
        digits_value(s.subrange(0, k)) <= digits_value(s),
        0 <= digits_value(s.subrange(0, k)),
    decreases s.len(),
{
    if k == s.len() {
        assert(s.subrange(0, k) =~= s);
        lemma_digits_nonneg(s);
    } else {
        let d = s.drop_last();
        if d.len() > 0 {
            assert(all_digits(d));
            lemma_digits_prefix(d, k);
            assert(d.subrange(0, k) =~= s.subrange(0, k));
        } else {
            assert(s.subrange(0, k) =~= Seq::<char>::empty());
        }
        lemma_digits_nonneg(s);
        lemma_digits_nonneg(d);
        assert(is_digit(s[s.len() - 1]));
    }
}

proof fn lemma_digits_nonneg(s: Seq<char>)
    requires
        forall|i: int| 0 <= i < s.len() ==> is_digit(#[trigger] s[i]),
    ensures
        digits_value(s) >= 0,
    decreases s.len(),
{
    if s.len() > 0 {
        let d = s.drop_last();
        assert forall|i: int| 0 <= i < d.len() implies is_digit(#[trigger] d[i]) by {
            assert(d[i] == s[i]);
        }
        lemma_digits_nonneg(d);
        assert(is_digit(s[s.len() - 1]));
    }
}

/// Reads the digits of `cs` from `start` on; `None` where one is not a digit,
/// there are none, or their value exceeds `limit`.
fn read_digits(cs: &Vec<char>, start: usize, limit: u128) -> (r: Option<u128>)
    requires
        start <= cs@.len(),
        limit <= u64::MAX as u128 + 1,
    ensures
        match r {
            Some(m) => all_digits(cs@.skip(start as int)) && m as int == digits_value(
                cs@.skip(start as int),
            ) && m <= limit,
            None => !(all_digits(cs@.skip(start as int)) && digits_value(cs@.skip(start as int))
                <= limit),
        },
{
    let ghost tail = cs@.skip(start as int);
    if start == cs.len() {
        return None;
    }
    let mut acc: u128 = 0;
    let mut i: usize = start;
    while i < cs.len()
        invariant
            start <= i <= cs@.len(),
            tail == cs@.skip(start as int),
            limit <= u64::MAX as u128 + 1,
            forall|j: int| 0 <= j < i - start ==> is_digit(#[trigger] tail[j]),
            acc as int == digits_value(tail.subrange(0, i - start)),
            acc <= limit,
        decreases cs@.len() - i,
    {
        let c = cs[i];
        assert(c == tail[i - start]);
        if !('0' <= c && c <= '9') {
            assert(!all_digits(tail));
            return None;
        }
        let d = (c as u32 - '0' as u32) as u128;
        proof {
            let p = tail.subrange(0, i + 1 - start);
            assert(p.drop_last() =~= tail.subrange(0, i - start));
            assert(p.last() == c);
        }
        acc = acc * 10 + d;
        i = i + 1;
        if acc > limit {
            proof {
                if all_digits(tail) {
                    lemma_digits_prefix(tail, i - start);
                }
            }
            return None;
        }
    }
    assert(tail.subrange(0, i - start) =~= tail);
    Some(acc)
}

/// Reads a signed decimal integer that fits in `isize`.
pub fn parse_int(s: &str) -> (r: Option<isize>)
    ensures
        r == (match signed_value(s@) {
            Some(n) => if isize::MIN <= n <= isize::MAX {
                Some(n as isize)
            } else {
                None::<isize>
            },
            None => None::<isize>,
        }),
{
    let cs = chars_of(s);
    if cs.len() > 0 && (cs[0] == '-' || cs[0] == '+') {
        let neg = cs[0] == '-';
        let limit: u128 = if neg {
            isize::MAX as u128 + 1
        } else {
            isize::MAX as u128
        };
        assert(cs@.skip(1) =~= s@.drop_first());
        assert(!is_digit(s@[0]));
        assert(!all_digits(s@));
        match read_digits(&cs, 1, limit) {
            Some(m) => {
                if neg {
                    Some((0i128 - m as i128) as isize)
                } else {
                    Some(m as isize)
                }
            },
            None => {
                proof {
                    if all_digits(s@.drop_first()) {
                        lemma_digits_nonneg(s@.drop_first());
                    }
                }
                None
            },
        }
    } else {
        assert(cs@.skip(0) =~= s@);
        match read_digits(&cs, 0, isize::MAX as u128) {
            Some(m) => Some(m as isize),
            None => None,
        }
    }
}

/// Reads an unsigned decimal integer that fits in `usize`.
pub fn parse_uint(s: &str) -> (r: Option<usize>)
    ensures
        r == (match unsigned_value(s@) {
            Some(n) => if 0 <= n <= usize::MAX {
                Some(n as usize)
            } else {
                None::<usize>
            },
            None => None::<usize>,
        }),
{
    let cs = chars_of(s);
    if cs.len() > 0 && cs[0] == '+' {
        assert(cs@.skip(1) =~= s@.drop_first());
        assert(!is_digit(s@[0]));
        assert(!all_digits(s@));
        match read_digits(&cs, 1, usize::MAX as u128) {
            Some(m) => Some(m as usize),
            None => None,
        }
    } else {
        assert(cs@.skip(0) =~= s@);
        match read_digits(&cs, 0, usize::MAX as u128) {
            Some(m) => Some(m as usize),
            None => None,
        }
    }
}

pub open spec fn raw_view(raw: Option<String>) -> Option<Seq<char>> {
    match raw {
        Some(s) => Some(s@),
        None => None,
    }
}

impl Flag {
    /// A flag `--name` of the given type, with no alias, taken once.
    pub fn new(name: &str, flag_type: FlagType) -> (r: Flag)
        ensures
            r@ == (FlagModel {
                name: name@,
                aliases: Seq::empty(),
                flag_type,
                multiple: false,
            }),
            r.description is None,
    {
        Flag {
            name: String::from_str(name),
            description: None,
            flag_type,
            alias: None,
            multiple: false,
        }
    }

    /// Sets the description shown in help.
    pub fn description(self, description: &str) -> (r: Flag)
        ensures
            r@ == self@,
            r.description matches Some(d) && d@ == description@,
    {
        Flag { description: Some(String::from_str(description)), ..self }
    }

    /// Adds an alias: `-a` and `--a` then name the flag too.
    pub fn alias(self, name: &str) -> (r: Flag)
        ensures
            r@ == (FlagModel { aliases: self@.aliases.push(name@), ..self@ }),
            r.description == self.description,
    {
        let mut aliases = match self.alias {
            Some(a) => a,
            None => Vec::new(),
        };
        let ghost before = aliases@;
        assert(before.map_values(|s: String| s@) =~= strings_view(self.alias));
        aliases.push(String::from_str(name));
        assert(aliases@.map_values(|s: String| s@) =~= before.map_values(|s: String| s@).push(
            name@,
        ));
        Flag { alias: Some(aliases), ..self }
    }

    /// Lets the flag occur more than once, each occurrence giving one value.
    pub fn multiple(self) -> (r: Flag)
        ensures
            r@ == (FlagModel { multiple: true, ..self@ }),
            r.description == self.description,
    {
        Flag { multiple: true, ..self }
    }

    /// Whether the token `t` names this flag.
    pub fn names(&self, t: &String) -> (r: bool)
        ensures
            r == self@.names(t@),
    {
        if *t == make_long(self.name.as_str()) {
            return true;
        }
        match &self.alias {
            None => {
                assert(strings_view(self.alias) =~= Seq::<Seq<char>>::empty());
                false
            },
            Some(aliases) => {
                let ghost al = strings_view(self.alias);
                let mut i: usize = 0;
                while i < aliases.len()
                    invariant
                        self.alias == Some(*aliases),
                        al == strings_view(self.alias),
                        al.len() == aliases@.len(),
                        t@ != long_form(self@.name),
                        i <= aliases@.len(),
                        forall|j: int|
                            0 <= j < i ==> !(t@ == short_form(#[trigger] al[j]) || t@ == long_form(
                                al[j],
                            )),
                    decreases aliases@.len() - i,
                {
                    let a = aliases[i].as_str();
                    assert(al[i as int] == a@);
                    if *t == make_short(a) || *t == make_long(a) {
                        assert(self@.aliases[i as int] == a@);
                        return true;
                    }
                    i = i + 1;
                }
                false
            },
        }
    }

    /// The position of the first token of `v` that names this flag.
    pub fn option_index(&self, v: &Vec<String>) -> (r: Option<usize>)
        ensures
            match r {
                Some(i) => self@.first_match(v@.map_values(|s: String| s@)) == Some(i as int),
                None => self@.first_match(v@.map_values(|s: String| s@)) is None,
            },
    {
        let ghost args = v@.map_values(|s: String| s@);
        let mut i: usize = 0;
        while i < v.len()
            invariant
                args == v@.map_values(|s: String| s@),
                i <= v@.len(),
                forall|j: int| 0 <= j < i ==> !self@.names(#[trigger] args[j]),
            decreases v@.len() - i,
        {
            if self.names(&v[i]) {
                proof {
                    lemma_first_match_unique(self@, args, i as int);
                }
                return Some(i);
            }
            i = i + 1;
        }
        assert(!exists|k: int| self@.is_first_match(args, k));
        None
    }

    /// The outcome of one occurrence whose value token is `raw`.
    pub fn value(&self, raw: Option<String>) -> (r: Result<FlagValue, FlagError>)
        ensures
            outcome_view(r) == coerce(self.flag_type, raw_view(raw)),
    {
        match self.flag_type {
            FlagType::Bool => Ok(FlagValue::Bool(true)),
            _ => match raw {
                None => Err(FlagError::NotFound),
                Some(s) => match self.flag_type {
                    FlagType::String => Ok(FlagValue::String(s)),
                    FlagType::Int => match parse_int(s.as_str()) {
                        Some(n) => Ok(FlagValue::Int(n)),
                        None => Err(FlagError::ValueTypeError),
                    },
                    FlagType::Uint => match parse_uint(s.as_str()) {
                        Some(n) => Ok(FlagValue::Uint(n)),
                        None => Err(FlagError::ValueTypeError),
                    },
                    _ => if check_float_text(s.as_str()) {
                        Ok(FlagValue::Float(s))
                    } else {
                        Err(FlagError::ValueTypeError)
                    },
                },
            },
        }
    }
}

} // verus!
