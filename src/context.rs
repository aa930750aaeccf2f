use vstd::prelude::*;

use crate::error::FlagError;
use crate::flag::{coerce, outcome_view, Flag, FlagModel, FlagType, FlagValue, FlagValueModel, Outcome};
use crate::output::print_text;
use crate::utils::strings;

verus! {

/// A flag name with what one occurrence (or the absence) of it produced.
pub type Entry = (Seq<char>, Outcome);

/// Consumes the occurrences of flag `f` in `args`, first to last; `found` says
/// whether an occurrence was consumed already. Gives the tokens left and the
/// outcomes in order.
pub open spec fn scan(f: FlagModel, args: Seq<Seq<char>>, found: bool) -> (Seq<Seq<char>>, Seq<Outcome>)
    decreases args.len(),
{
    match f.first_match(args) {
        None => (args, if found {
            Seq::empty()
        } else {
            seq![Err(FlagError::NotFound)]
        }),
        Some(i) => {
            if 0 <= i < args.len() {
                let rest = args.remove(i);
                if f.flag_type == FlagType::Bool || i < rest.len() {
                    let out = if f.flag_type == FlagType::Bool {
                        coerce(f.flag_type, None)
                    } else {
                        coerce(f.flag_type, Some(rest[i]))
                    };
                    let rest2 = if f.flag_type == FlagType::Bool {
                        rest
                    } else {
                        rest.remove(i)
                    };
                    if f.multiple {
                        let (a, o) = scan(f, rest2, true);
                        (a, seq![out] + o)
                    } else {
                        (rest2, seq![out])
                    }
                } else {
                    (rest, seq![Err(FlagError::NotFound)])
                }
            } else {
                // first_match only gives positions within args
                (args, Seq::empty())
            }
        },
    }
}

pub open spec fn tag(name: Seq<char>, outs: Seq<Outcome>) -> Seq<Entry> {
    outs.map_values(|o: Outcome| (name, o))
}

/// Scans every flag of `flags` in declaration order.
pub open spec fn scan_all(flags: Seq<FlagModel>, args: Seq<Seq<char>>) -> (Seq<Seq<char>>, Seq<Entry>)
    decreases flags.len(),
{
    if flags.len() == 0 {
        (args, Seq::empty())
    } else {
        let (a1, e1) = scan_all(flags.drop_last(), args);
        let f = flags.last();
        let (a2, o2) = scan(f, a1, false);
        (a2, e1 + tag(f.name, o2))
    }
}

pub open spec fn flags_view(flags: Seq<Flag>) -> Seq<FlagModel> {
    flags.map_values(|f: Flag| f@)
}

/// The first outcome recorded for `name`.
pub open spec fn lookup(entries: Seq<Entry>, name: Seq<char>) -> Outcome
    decreases entries.len(),
{
    if entries.len() == 0 {
        Err(FlagError::Undefined)
    } else if entries[0].0 == name {
        entries[0].1
    } else {
        lookup(entries.drop_first(), name)
    }
}

/// Every outcome recorded for `name`, in order.
pub open spec fn occurrences(entries: Seq<Entry>, name: Seq<char>) -> Seq<Outcome>
    decreases entries.len(),
{
    if entries.len() == 0 {
        Seq::empty()
    } else {
        occurrences(entries.drop_last(), name) + if entries.last().0 == name {
            seq![entries.last().1]
        } else {
            Seq::empty()
        }
    }
}

pub struct ContextModel {
    pub args: Seq<Seq<char>>,
    pub flags: Option<Seq<Entry>>,
    pub help: Seq<char>,
}

impl ContextModel {
    pub open spec fn value_of(self, name: Seq<char>) -> Outcome {
        match self.flags {
            Some(e) => lookup(e, name),
            None => Err(FlagError::Undefined),
        }
    }

    pub open spec fn values_of(self, name: Seq<char>) -> Seq<Outcome> {
        match self.flags {
            Some(e) => occurrences(e, name),
            None => Seq::empty(),
        }
    }
}

/// What `Context::new` makes of `args` and the declared flags.
pub open spec fn parse(args: Seq<Seq<char>>, flags: Option<Seq<FlagModel>>) -> (Seq<Seq<char>>, Option<Seq<Entry>>) {
    match flags {
        Some(fs) => {
            let (a, e) = scan_all(fs, args);
            (a, Some(e))
        },
        None => (args, None),
    }
}

pub open spec fn bool_of(o: Outcome) -> bool {
    match o {
        Ok(FlagValueModel::Bool(b)) => b,
        _ => false,
    }
}

pub open spec fn bool_result(o: Outcome) -> Result<bool, FlagError> {
    match o {
        Ok(FlagValueModel::Bool(b)) => Ok(b),
        Ok(_) => Err(FlagError::TypeError),
        Err(e) => Err(e),
    }
}

pub open spec fn text_result(o: Outcome) -> Result<Seq<char>, FlagError> {
    match o {
        Ok(FlagValueModel::String(s)) => Ok(s),
        Ok(_) => Err(FlagError::TypeError),
        Err(e) => Err(e),
    }
}

pub open spec fn int_result(o: Outcome) -> Result<isize, FlagError> {
    match o {
        Ok(FlagValueModel::Int(i)) => Ok(i),
        Ok(_) => Err(FlagError::TypeError),
        Err(e) => Err(e),
    }
}

pub open spec fn uint_result(o: Outcome) -> Result<usize, FlagError> {
    match o {
        Ok(FlagValueModel::Uint(u)) => Ok(u),
        Ok(_) => Err(FlagError::TypeError),
        Err(e) => Err(e),
    }
}

pub open spec fn float_text_result(o: Outcome) -> Result<Seq<char>, FlagError> {
    match o {
        Ok(FlagValueModel::Float(s)) => Ok(s),
        Ok(_) => Err(FlagError::TypeError),
        Err(e) => Err(e),
    }
}

pub open spec fn text_view(r: Result<String, FlagError>) -> Result<Seq<char>, FlagError> {
    match r {
        Ok(s) => Ok(s@),
        Err(e) => Err(e),
    }
}

/// What an action sees: the positional arguments left once the flags and
/// their values are taken out, and what each declared flag produced.
pub struct Context {
    pub args: Vec<String>,
    flags: Option<Vec<(String, Result<FlagValue, FlagError>)>>,
    help_text: String,
}

pub open spec fn entries_view(v: Seq<(String, Result<FlagValue, FlagError>)>) -> Seq<Entry> {
    v.map_values(|e: (String, Result<FlagValue, FlagError>)| (e.0@, outcome_view(e.1)))
}

impl View for Context {
    type V = ContextModel;

    closed spec fn view(&self) -> ContextModel {
        ContextModel {
            args: strings(self.args@),
            flags: match self.flags {
                Some(v) => Some(entries_view(v@)),
                None => None,
            },
            help: self.help_text@,
        }
    }
}

fn copy_value(v: &FlagValue) -> (r: FlagValue)
    ensures
        r@ == v@,
{
    match v {
        FlagValue::Bool(b) => FlagValue::Bool(*b),
        FlagValue::String(s) => FlagValue::String(s.clone()),
        FlagValue::Int(i) => FlagValue::Int(*i),
        FlagValue::Uint(u) => FlagValue::Uint(*u),
        FlagValue::Float(s) => FlagValue::Float(s.clone()),
    }
}

fn copy_outcome(r: &Result<FlagValue, FlagError>) -> (c: Result<FlagValue, FlagError>)
    ensures
        outcome_view(c) == outcome_view(*r),
{
    match r {
        Ok(v) => Ok(copy_value(v)),
        Err(e) => Err(*e),
    }
}

/// Consumes the occurrences of `flag` from `parsed`, appending one entry per
/// outcome to `entries`.
fn take_flag(flag: &Flag, parsed: &mut Vec<String>, entries: &mut Vec<(String, Result<FlagValue, FlagError>)>)
    ensures
        ({
            let (a, o) = scan(flag@, strings(old(parsed)@), false);
            strings(final(parsed)@) == a && entries_view(final(entries)@) == entries_view(
                old(entries)@,
            ) + tag(flag@.name, o)
        }),
{
    let ghost f = flag@;
    let ghost start = strings(parsed@);
    let ghost e0 = entries_view(entries@);
    let ghost mut acc: Seq<Outcome> = Seq::empty();
    let mut found = false;
    let mut done = false;
    while !done
        invariant
            f == flag@,
            found ==> f.multiple,
            entries_view(entries@) == e0 + tag(f.name, acc),
            !done ==> ({
                let (a, o) = scan(f, strings(parsed@), found);
                (a, acc + o) == scan(f, start, false)
            }),
            done ==> (strings(parsed@), acc) == scan(f, start, false),
        decreases parsed@.len() + if done {
            0int
        } else {
            1int
        },
    {
        let ghost cur = strings(parsed@);
        let ghost e_before = entries@;
        match flag.option_index(parsed) {
            Some(index) => {
                parsed.remove(index);
                let ghost rest = strings(parsed@);
                assert(rest =~= cur.remove(index as int));
                let val = if flag.flag_type != FlagType::Bool {
                    if parsed.len() <= index {
                        None
                    } else {
                        Some(parsed.remove(index))
                    }
                } else {
                    None
                };
                let missing = flag.flag_type != FlagType::Bool && val.is_none();
                proof {
                    if flag.flag_type != FlagType::Bool && index < rest.len() {
                        assert(strings(parsed@) =~= rest.remove(index as int));
                    }
                }
                let out = flag.value(val);
                let ghost o = outcome_view(out);
                entries.push((flag.name.clone(), out));
                proof {
                    assert(entries_view(entries@) =~= entries_view(e_before).push((f.name, o)));
                    assert(tag(f.name, acc.push(o)) =~= tag(f.name, acc).push((f.name, o)));
                    let (a, os) = scan(f, cur, found);
                    if !missing && f.multiple {
                        let (a2, o2) = scan(f, strings(parsed@), true);
                        assert(os == seq![o] + o2);
                        assert(acc.push(o) + o2 =~= acc + os);
                    } else {
                        assert(os =~= seq![o]);
                    }
                    acc = acc.push(o);
                }
                if !flag.multiple || missing {
                    done = true;
                } else {
                    found = true;
                }
            },
            None => {
                if !found {
                    entries.push((flag.name.clone(), Err(FlagError::NotFound)));
                    proof {
                        let o = Err(FlagError::NotFound);
                        assert(entries_view(entries@) =~= entries_view(e_before).push((f.name, o)));
                        assert(tag(f.name, acc.push(o)) =~= tag(f.name, acc).push((f.name, o)));
                        acc = acc.push(o);
                    }
                } else {
                    assert(acc + Seq::<Outcome>::empty() =~= acc);
                }
                done = true;
            },
        }
    }
}

impl Context {
    /// Takes each declared flag's occurrences (and values) out of `args`, in
    /// the order the flags were declared, and keeps the rest as positional
    /// arguments.
    pub fn new(args: Vec<String>, flags: Option<Vec<Flag>>, help_text: String) -> (r: Context)
        ensures
            (r@.args, r@.flags) == parse(
                strings(args@),
                match flags {
                    Some(fs) => Some(flags_view(fs@)),
                    None => None,
                },
            ),
            r@.help == help_text@,
    {
        match flags {
            Some(fs) => Context::from_flags(args, &fs, help_text),
            None => Context { args, flags: None, help_text },
        }
    }

    /// `Context::new` with the flags borrowed.
    pub fn from_flags(args: Vec<String>, flags: &Vec<Flag>, help_text: String) -> (r: Context)
        ensures
            (r@.args, r@.flags) == parse(strings(args@), Some(flags_view(flags@))),
            r@.help == help_text@,
    {
        let mut parsed = args;
        let mut entries: Vec<(String, Result<FlagValue, FlagError>)> = Vec::new();
        let mut i: usize = 0;
        while i < flags.len()
            invariant
                i <= flags@.len(),
                ({
                    let (a, e) = scan_all(flags_view(flags@.take(i as int)), strings(args@));
                    strings(parsed@) == a && entries_view(entries@) == e
                }),
            decreases flags@.len() - i,
        {
            take_flag(&flags[i], &mut parsed, &mut entries);
            proof {
                let fv = flags_view(flags@.take(i + 1));
                assert(fv.drop_last() =~= flags_view(flags@.take(i as int)));
                assert(fv.last() == flags@[i as int]@);
            }
            i = i + 1;
        }
        assert(flags@.take(i as int) =~= flags@);
        Context { args: parsed, flags: Some(entries), help_text }
    }

    /// The first outcome recorded for flag `name`; `Undefined` where none is.
    fn result_flag_value(&self, name: &str) -> (r: Result<FlagValue, FlagError>)
        ensures
            outcome_view(r) == self@.value_of(name@),
    {
        match &self.flags {
            None => Err(FlagError::Undefined),
            Some(entries) => {
                let key = String::from_str(name);
                let ghost e = entries_view(entries@);
                assert(self@.flags == Some(e));
                assert(e.skip(0) =~= e);
                let mut i: usize = 0;
                while i < entries.len()
                    invariant
                        i <= entries@.len(),
                        e == entries_view(entries@),
                        key@ == name@,
                        self@.flags == Some(e),
                        lookup(e, name@) == lookup(e.skip(i as int), name@),
                    decreases entries@.len() - i,
                {
                    assert(e.skip(i as int)[0] == e[i as int]);
                    assert(e[i as int] == (entries@[i as int].0@, outcome_view(entries@[i as int].1)));
                    if entries[i].0 == key {
                        let r = copy_outcome(&entries[i].1);
                        assert(lookup(e.skip(i as int), name@) == e[i as int].1);
                        assert(self@.flags == Some(e));
                        return r;
                    }
                    assert(e.skip(i as int).drop_first() =~= e.skip(i + 1));
                    i = i + 1;
                }
                Err(FlagError::Undefined)
            },
        }
    }

    /// Every outcome recorded for flag `name`, in order.
    fn result_flag_value_vec(&self, name: &str) -> (r: Vec<Result<FlagValue, FlagError>>)
        ensures
            r@.map_values(|o: Result<FlagValue, FlagError>| outcome_view(o)) == self@.values_of(
                name@,
            ),
    {
        let mut out: Vec<Result<FlagValue, FlagError>> = Vec::new();
        match &self.flags {
            None => {
                assert(out@.map_values(|o: Result<FlagValue, FlagError>| outcome_view(o))
                    =~= Seq::<Outcome>::empty());
                out
            },
            Some(entries) => {
                let key = String::from_str(name);
                let ghost e = entries_view(entries@);
                let mut i: usize = 0;
                while i < entries.len()
                    invariant
                        i <= entries@.len(),
                        e == entries_view(entries@),
                        key@ == name@,
                        out@.map_values(|o: Result<FlagValue, FlagError>| outcome_view(o))
                            == occurrences(e.take(i as int), name@),
                    decreases entries@.len() - i,
                {
                    let ghost prev = out@;
                    if entries[i].0 == key {
                        out.push(copy_outcome(&entries[i].1));
                    }
                    proof {
                        let t = e.take(i + 1);
                        assert(t.drop_last() =~= e.take(i as int));
                        assert(t.last() == e[i as int]);
                        assert(out@.map_values(|o: Result<FlagValue, FlagError>| outcome_view(o))
                            =~= occurrences(t, name@));
                    }
                    i = i + 1;
                }
                assert(e.take(i as int) =~= e);
                out
            },
        }
    }

    /// Whether bool flag `name` occurred; `false` on any error.
    pub fn bool_flag(&self, name: &str) -> (r: bool)
        ensures
            r == bool_of(self@.value_of(name@)),
    {
        match self.result_flag_value(name) {
            Ok(FlagValue::Bool(b)) => b,
            _ => false,
        }
    }

    /// Each occurrence of a repeated bool flag.
    pub fn bool_flag_vec(&self, name: &str) -> (r: Vec<Result<bool, FlagError>>)
        ensures
            r@ == self@.values_of(name@).map_values(|o: Outcome| bool_result(o)),
    {
        let all = self.result_flag_value_vec(name);
        let ghost m = all@.map_values(|o: Result<FlagValue, FlagError>| outcome_view(o));
        let mut out: Vec<Result<bool, FlagError>> = Vec::new();
        let mut i: usize = 0;
        while i < all.len()
            invariant
                i <= all@.len(),
                m == all@.map_values(|o: Result<FlagValue, FlagError>| outcome_view(o)),
                out@ == m.take(i as int).map_values(|o: Outcome| bool_result(o)),
            decreases all@.len() - i,
        {
            let v = match &all[i] {
                Ok(FlagValue::Bool(b)) => Ok(*b),
                Ok(_) => Err(FlagError::TypeError),
                Err(e) => Err(*e),
            };
            out.push(v);
            assert(m.take(i + 1) =~= m.take(i as int).push(m[i as int]));
            i = i + 1;
            assert(out@ =~= m.take(i as int).map_values(|o: Outcome| bool_result(o)));
        }
        assert(m.take(i as int) =~= m);
        out
    }

    /// The value of string flag `name`.
    pub fn string_flag(&self, name: &str) -> (r: Result<String, FlagError>)
        ensures
            text_view(r) == text_result(self@.value_of(name@)),
    {
        match self.result_flag_value(name) {
            Ok(FlagValue::String(s)) => Ok(s),
            Ok(_) => Err(FlagError::TypeError),
            Err(e) => Err(e),
        }
    }

    /// Each value of a repeated string flag.
    pub fn string_flag_vec(&self, name: &str) -> (r: Vec<Result<String, FlagError>>)
        ensures
            r@.map_values(|x: Result<String, FlagError>| text_view(x)) == self@.values_of(
                name@,
            ).map_values(|o: Outcome| text_result(o)),
    {
        let all = self.result_flag_value_vec(name);
        let ghost m = all@.map_values(|o: Result<FlagValue, FlagError>| outcome_view(o));
        let mut out: Vec<Result<String, FlagError>> = Vec::new();
        let mut i: usize = 0;
        while i < all.len()
            invariant
                i <= all@.len(),
                m == all@.map_values(|o: Result<FlagValue, FlagError>| outcome_view(o)),
                out@.map_values(|x: Result<String, FlagError>| text_view(x)) == m.take(
                    i as int,
                ).map_values(|o: Outcome| text_result(o)),
            decreases all@.len() - i,
        {
            let v = match &all[i] {
                Ok(FlagValue::String(s)) => Ok(s.clone()),
                Ok(_) => Err(FlagError::TypeError),
                Err(e) => Err(*e),
            };
            let ghost prev = out@;
            out.push(v);
            assert(out@.map_values(|x: Result<String, FlagError>| text_view(x)) =~= prev.map_values(
                |x: Result<String, FlagError>| text_view(x),
            ).push(text_view(v)));
            assert(m.take(i + 1) =~= m.take(i as int).push(m[i as int]));
            i = i + 1;
            assert(out@.map_values(|x: Result<String, FlagError>| text_view(x)) =~= m.take(
                i as int,
            ).map_values(|o: Outcome| text_result(o)));
        }
        assert(m.take(i as int) =~= m);
        out
    }

    /// The value of int flag `name`.
    pub fn int_flag(&self, name: &str) -> (r: Result<isize, FlagError>)
        ensures
            r == int_result(self@.value_of(name@)),
    {
        match self.result_flag_value(name) {
            Ok(FlagValue::Int(i)) => Ok(i),
            Ok(_) => Err(FlagError::TypeError),
            Err(e) => Err(e),
        }
    }

    /// Each value of a repeated int flag.
    pub fn int_flag_vec(&self, name: &str) -> (r: Vec<Result<isize, FlagError>>)
        ensures
            r@ == self@.values_of(name@).map_values(|o: Outcome| int_result(o)),
    {
        let all = self.result_flag_value_vec(name);
        let ghost m = all@.map_values(|o: Result<FlagValue, FlagError>| outcome_view(o));
        let mut out: Vec<Result<isize, FlagError>> = Vec::new();
        let mut i: usize = 0;
        while i < all.len()
            invariant
                i <= all@.len(),
                m == all@.map_values(|o: Result<FlagValue, FlagError>| outcome_view(o)),
                out@ == m.take(i as int).map_values(|o: Outcome| int_result(o)),
            decreases all@.len() - i,
        {
            let v = match &all[i] {
                Ok(FlagValue::Int(n)) => Ok(*n),
                Ok(_) => Err(FlagError::TypeError),
                Err(e) => Err(*e),
            };
            out.push(v);
            assert(m.take(i + 1) =~= m.take(i as int).push(m[i as int]));
            i = i + 1;
            assert(out@ =~= m.take(i as int).map_values(|o: Outcome| int_result(o)));
        }
        assert(m.take(i as int) =~= m);
        out
    }

    /// The value of uint flag `name`.
    pub fn uint_flag(&self, name: &str) -> (r: Result<usize, FlagError>)
        ensures
            r == uint_result(self@.value_of(name@)),
    {
        match self.result_flag_value(name) {
            Ok(FlagValue::Uint(u)) => Ok(u),
            Ok(_) => Err(FlagError::TypeError),
            Err(e) => Err(e),
        }
    }

    /// Each value of a repeated uint flag.
    pub fn uint_flag_vec(&self, name: &str) -> (r: Vec<Result<usize, FlagError>>)
        ensures
            r@ == self@.values_of(name@).map_values(|o: Outcome| uint_result(o)),
    {
        let all = self.result_flag_value_vec(name);
        let ghost m = all@.map_values(|o: Result<FlagValue, FlagError>| outcome_view(o));
        let mut out: Vec<Result<usize, FlagError>> = Vec::new();
        let mut i: usize = 0;
        while i < all.len()
            invariant
                i <= all@.len(),
                m == all@.map_values(|o: Result<FlagValue, FlagError>| outcome_view(o)),
                out@ == m.take(i as int).map_values(|o: Outcome| uint_result(o)),
            decreases all@.len() - i,
        {
            let v = match &all[i] {
                Ok(FlagValue::Uint(n)) => Ok(*n),
                Ok(_) => Err(FlagError::TypeError),
                Err(e) => Err(*e),
            };
            out.push(v);
            assert(m.take(i + 1) =~= m.take(i as int).push(m[i as int]));
            i = i + 1;
            assert(out@ =~= m.take(i as int).map_values(|o: Outcome| uint_result(o)));
        }
        assert(m.take(i as int) =~= m);
        out
    }

    /// The text of float flag `name`, which reads as a floating-point number.
    pub fn float_flag_text(&self, name: &str) -> (r: Result<String, FlagError>)
        ensures
            text_view(r) == float_text_result(self@.value_of(name@)),
    {
        match self.result_flag_value(name) {
            Ok(FlagValue::Float(s)) => Ok(s),
            Ok(_) => Err(FlagError::TypeError),
            Err(e) => Err(e),
        }
    }

    /// Each text of a repeated float flag.
    pub fn float_flag_text_vec(&self, name: &str) -> (r: Vec<Result<String, FlagError>>)
        ensures
            r@.map_values(|x: Result<String, FlagError>| text_view(x)) == self@.values_of(
                name@,
            ).map_values(|o: Outcome| float_text_result(o)),
    {
        let all = self.result_flag_value_vec(name);
        let ghost m = all@.map_values(|o: Result<FlagValue, FlagError>| outcome_view(o));
        let mut out: Vec<Result<String, FlagError>> = Vec::new();
        let mut i: usize = 0;
        while i < all.len()
            invariant
                i <= all@.len(),
                m == all@.map_values(|o: Result<FlagValue, FlagError>| outcome_view(o)),
                out@.map_values(|x: Result<String, FlagError>| text_view(x)) == m.take(
                    i as int,
                ).map_values(|o: Outcome| float_text_result(o)),
            decreases all@.len() - i,
        {
            let v = match &all[i] {
                Ok(FlagValue::Float(s)) => Ok(s.clone()),
                Ok(_) => Err(FlagError::TypeError),
                Err(e) => Err(*e),
            };
            let ghost prev = out@;
            out.push(v);
            assert(out@.map_values(|x: Result<String, FlagError>| text_view(x)) =~= prev.map_values(
                |x: Result<String, FlagError>| text_view(x),
            ).push(text_view(v)));
            assert(m.take(i + 1) =~= m.take(i as int).push(m[i as int]));
            i = i + 1;
            assert(out@.map_values(|x: Result<String, FlagError>| text_view(x)) =~= m.take(
                i as int,
            ).map_values(|o: Outcome| float_text_result(o)));
        }
        assert(m.take(i as int) =~= m);
        out
    }

    /// Shows the help text of the command this context was made for.
    pub fn help(&self) {
        print_text(self.help_text.as_str());
    }

    /// The help text of the command this context was made for.
    pub fn help_text(&self) -> (r: &String)
        ensures
            r@ == self@.help,
    {
        &self.help_text
    }
}

} // verus!
