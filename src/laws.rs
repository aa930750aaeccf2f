use vstd::prelude::*;

use crate::app::{app_route, app_tokens, as_root, App};
use crate::command::{
    command_names, distinct_children, first_child, help_long, is_first_child,
    lemma_first_child_unique, TargetModel,
};
use crate::context::{bool_of, lookup, scan, scan_all, tag, Context, Entry};
use crate::error::FlagError;
use crate::flag::{coerce, lemma_first_match_unique, FlagModel, FlagType, FlagValueModel, Outcome};
use crate::text::long_form;
use crate::utils::{is_first_eq, lemma_first_eq_unique, normalize, split_token};

verus! {

/// Normalizing a concatenation normalizes each part.
pub proof fn lemma_normalize_append(a: Seq<Seq<char>>, b: Seq<Seq<char>>)
    ensures
        normalize(a + b) == normalize(a) + normalize(b),
    decreases b.len(),
{
    if b.len() == 0 {
        assert(a + b =~= a);
        assert(normalize(a) + normalize(b) =~= normalize(a));
    } else {
        lemma_normalize_append(a, b.drop_last());
        assert((a + b).drop_last() =~= a + b.drop_last());
        assert((a + b).last() == b.last());
        assert(normalize(a + b) =~= normalize(a) + normalize(b));
    }
}

proof fn lemma_normalize_one(t: Seq<char>)
    ensures
        normalize(seq![t]) == split_token(t),
{
    assert(seq![t].drop_last() =~= Seq::<Seq<char>>::empty());
    assert(normalize(Seq::<Seq<char>>::empty()) =~= Seq::<Seq<char>>::empty());
    assert(seq![t].last() == t);
    assert(normalize(seq![t]) =~= split_token(t));
}

/// `--name value` and `--name=value` read alike, wherever they stand among
/// other tokens: the two argument vectors normalize to the same tokens, so
/// every declared flag gets the same outcomes from both. This holds where
/// `name` has no `=` and normalization leaves `value` as it is.
pub proof fn law_equals_form(
    pre: Seq<Seq<char>>,
    post: Seq<Seq<char>>,
    name: Seq<char>,
    value: Seq<char>,
    flags: Seq<FlagModel>,
)
    requires
        !name.contains('='),
        split_token(value) == seq![value],
    ensures
        normalize(pre + seq![long_form(name), value] + post) == normalize(
            pre + seq![long_form(name) + seq!['='] + value] + post,
        ),
        scan_all(flags, normalize(pre + seq![long_form(name), value] + post)) == scan_all(
            flags,
            normalize(pre + seq![long_form(name) + seq!['='] + value] + post),
        ),
{
    let l = long_form(name);
    let joined = l + seq!['='] + value;
    lemma_normalize_append(pre + seq![l, value], post);
    lemma_normalize_append(pre + seq![joined], post);
    lemma_normalize_append(pre, seq![l, value]);
    lemma_normalize_append(pre, seq![joined]);
    lemma_normalize_append(seq![l], seq![value]);
    assert(seq![l] + seq![value] =~= seq![l, value]);
    lemma_normalize_one(l);
    lemma_normalize_one(value);
    lemma_normalize_one(joined);
    assert forall|k: int| !is_first_eq(l, k) by {
        if is_first_eq(l, k) {
            if k >= 2 {
                assert(name[k - 2] == l[k]);
            }
        }
    }
    assert(l[0] == '-' && l[1] == '-');
    assert(!crate::utils::is_ascii_letter(l[1]));
    assert(!crate::utils::is_short_group(l));
    assert(split_token(l) == seq![l]);
    let k = l.len() as int;
    assert forall|j: int| 0 <= j < k implies #[trigger] joined[j] != '=' by {
        if j >= 2 {
            assert(joined[j] == name[j - 2]);
        }
    }
    assert(is_first_eq(joined, k));
    lemma_first_eq_unique(joined, k);
    assert(joined.take(k) =~= l);
    assert(joined.skip(k + 1) =~= value);
    assert(split_token(joined) == seq![l, value]);
}

/// Some token names the flag, then the first one does.
proof fn lemma_first_match_exists(f: FlagModel, args: Seq<Seq<char>>, i: int)
    requires
        0 <= i < args.len(),
        f.names(args[i]),
    ensures
        f.first_match(args) is Some,
    decreases i,
{
    if exists|j: int| 0 <= j < i && f.names(#[trigger] args[j]) {
        let j = choose|j: int| 0 <= j < i && f.names(#[trigger] args[j]);
        lemma_first_match_exists(f, args, j);
    } else {
        assert(f.is_first_match(args, i));
    }
}

/// What the first occurrence of `f` in `args` gives.
pub open spec fn first_outcome(f: FlagModel, args: Seq<Seq<char>>) -> Outcome {
    match f.first_match(args) {
        None => Err(FlagError::NotFound),
        Some(i) => if f.flag_type == FlagType::Bool {
            Ok(FlagValueModel::Bool(true))
        } else if i + 1 < args.len() {
            coerce(f.flag_type, Some(args[i + 1]))
        } else {
            Err(FlagError::NotFound)
        },
    }
}

proof fn lemma_scan_first(f: FlagModel, args: Seq<Seq<char>>)
    ensures
        scan(f, args, false).1.len() >= 1,
        scan(f, args, false).1[0] == first_outcome(f, args),
{
    match f.first_match(args) {
        None => {},
        Some(i) => {
            let c = choose|k: int| f.is_first_match(args, k);
            assert(f.is_first_match(args, c));
            let rest = args.remove(i);
            if f.flag_type != FlagType::Bool && i < rest.len() {
                assert(rest[i] == args[i + 1]);
            }
        },
    }
}

/// The outcomes of the first declared flag open the recorded entries.
proof fn lemma_scan_all_first(fs: Seq<FlagModel>, args: Seq<Seq<char>>)
    requires
        fs.len() >= 1,
    ensures
        ({
            let o = scan(fs[0], args, false).1;
            let e = scan_all(fs, args).1;
            o.len() <= e.len() && forall|i: int| 0 <= i < o.len() ==> e[i] == (fs[0].name, o[i])
        }),
    decreases fs.len(),
{
    let o = scan(fs[0], args, false).1;
    let (a1, e1) = scan_all(fs.drop_last(), args);
    let e = scan_all(fs, args).1;
    let f = fs.last();
    assert(e == e1 + tag(f.name, scan(f, a1, false).1));
    if fs.len() == 1 {
        assert(fs.drop_last() =~= Seq::<FlagModel>::empty());
        assert(scan_all(fs.drop_last(), args) == (args, Seq::<Entry>::empty()));
        assert(fs.last() == fs[0]);
        assert forall|i: int| 0 <= i < o.len() implies e[i] == (fs[0].name, o[i]) by {
            assert(e[i] == tag(f.name, o)[i]);
        }
    } else {
        lemma_scan_all_first(fs.drop_last(), args);
        assert(fs.drop_last()[0] == fs[0]);
        assert forall|i: int| 0 <= i < o.len() implies e[i] == (fs[0].name, o[i]) by {
            assert(e[i] == e1[i]);
        }
    }
}

/// The first declared flag reads as its first occurrence says: its value (or
/// `true` for a bool flag), `NotFound` where it does not occur or its value
/// token is missing, and `ValueTypeError` where the value does not read as
/// the flag's type.
pub proof fn law_first_flag_value(f: FlagModel, others: Seq<FlagModel>, args: Seq<Seq<char>>)
    ensures
        lookup(scan_all(seq![f] + others, args).1, f.name) == first_outcome(f, args),
{
    let fs = seq![f] + others;
    assert(fs[0] == f);
    lemma_scan_all_first(fs, args);
    lemma_scan_first(f, args);
    let e = scan_all(fs, args).1;
    assert(e[0] == (f.name, scan(f, args, false).1[0]));
}

/// A bool flag declared first is `true` exactly when some token names it
/// (by `--name` or a declared alias), and `false`, never an error, otherwise.
pub proof fn law_bool_flag(f: FlagModel, others: Seq<FlagModel>, args: Seq<Seq<char>>)
    requires
        f.flag_type == FlagType::Bool,
    ensures
        bool_of(lookup(scan_all(seq![f] + others, args).1, f.name)) == exists|i: int|
            0 <= i < args.len() && f.names(#[trigger] args[i]),
{
    law_first_flag_value(f, others, args);
    if exists|i: int| 0 <= i < args.len() && f.names(#[trigger] args[i]) {
        let i = choose|i: int| 0 <= i < args.len() && f.names(#[trigger] args[i]);
        lemma_first_match_exists(f, args, i);
    } else {
        if f.first_match(args) is Some {
            let c = choose|k: int| f.is_first_match(args, k);
            assert(f.is_first_match(args, c));
        }
    }
}

proof fn lemma_keys_declared(fs: Seq<FlagModel>, args: Seq<Seq<char>>, name: Seq<char>)
    requires
        forall|k: int| 0 <= k < fs.len() ==> (#[trigger] fs[k]).name != name,
    ensures
        forall|j: int|
            0 <= j < scan_all(fs, args).1.len() ==> (#[trigger] scan_all(fs, args).1[j]).0 != name,
    decreases fs.len(),
{
    if fs.len() > 0 {
        let d = fs.drop_last();
        assert forall|k: int| 0 <= k < d.len() implies (#[trigger] d[k]).name != name by {
            assert(d[k] == fs[k]);
        }
        lemma_keys_declared(d, args, name);
        assert(fs.last() == fs[fs.len() - 1]);
        let (a1, e1) = scan_all(d, args);
        let f = fs.last();
        let e = scan_all(fs, args).1;
        let o = scan(f, a1, false).1;
        assert(e == e1 + tag(f.name, o));
        assert forall|j: int| 0 <= j < e.len() implies (#[trigger] e[j]).0 != name by {
            if j < e1.len() {
                assert(e[j] == e1[j]);
            } else {
                assert(e[j] == tag(f.name, o)[j - e1.len()]);
            }
        }
    }
}

proof fn lemma_lookup_absent(e: Seq<Entry>, name: Seq<char>)
    requires
        forall|j: int| 0 <= j < e.len() ==> (#[trigger] e[j]).0 != name,
    ensures
        lookup(e, name) == Err::<FlagValueModel, FlagError>(FlagError::Undefined),
    decreases e.len(),
{
    if e.len() > 0 {
        let d = e.drop_first();
        assert forall|j: int| 0 <= j < d.len() implies (#[trigger] d[j]).0 != name by {
            assert(d[j] == e[j + 1]);
        }
        lemma_lookup_absent(d, name);
        assert(e[0].0 != name);
    }
}

/// A name that no declared flag has reads as `Undefined`.
pub proof fn law_undeclared(fs: Seq<FlagModel>, args: Seq<Seq<char>>, name: Seq<char>)
    requires
        forall|k: int| 0 <= k < fs.len() ==> (#[trigger] fs[k]).name != name,
    ensures
        lookup(scan_all(fs, args).1, name) == Err::<FlagValueModel, FlagError>(FlagError::Undefined),
{
    lemma_keys_declared(fs, args, name);
    lemma_lookup_absent(scan_all(fs, args).1, name);
}

proof fn lemma_scan_keeps_tokens(f: FlagModel, args: Seq<Seq<char>>, found: bool)
    ensures
        forall|t: Seq<char>| #[trigger] scan(f, args, found).0.contains(t) ==> args.contains(t),
    decreases args.len(),
{
    match f.first_match(args) {
        None => {},
        Some(i) => {
            if 0 <= i < args.len() {
                let rest = args.remove(i);
                assert forall|t: Seq<char>| rest.contains(t) implies args.contains(t) by {
                    let j = choose|j: int| 0 <= j < rest.len() && rest[j] == t;
                    if j < i {
                        assert(args[j] == t);
                    } else {
                        assert(args[j + 1] == t);
                    }
                }
                if f.flag_type == FlagType::Bool || i < rest.len() {
                    let rest2 = if f.flag_type == FlagType::Bool {
                        rest
                    } else {
                        rest.remove(i)
                    };
                    assert forall|t: Seq<char>| rest2.contains(t) implies args.contains(t) by {
                        let j = choose|j: int| 0 <= j < rest2.len() && rest2[j] == t;
                        if f.flag_type != FlagType::Bool {
                            if j < i {
                                assert(rest[j] == t);
                            } else {
                                assert(rest[j + 1] == t);
                            }
                        }
                    }
                    if f.multiple {
                        lemma_scan_keeps_tokens(f, rest2, true);
                        assert forall|t: Seq<char>| #[trigger]
                            scan(f, args, found).0.contains(t) implies args.contains(t) by {
                            assert(scan(f, args, found).0 == scan(f, rest2, true).0);
                            assert(rest2.contains(t));
                        }
                    } else {
                        assert(scan(f, args, found).0 == rest2);
                    }
                } else {
                    assert(scan(f, args, found).0 == rest);
                }
            }
        },
    }
}

proof fn lemma_scan_all_keeps_tokens(fs: Seq<FlagModel>, args: Seq<Seq<char>>)
    ensures
        forall|t: Seq<char>| #[trigger] scan_all(fs, args).0.contains(t) ==> args.contains(t),
    decreases fs.len(),
{
    if fs.len() > 0 {
        lemma_scan_all_keeps_tokens(fs.drop_last(), args);
        let a1 = scan_all(fs.drop_last(), args).0;
        lemma_scan_keeps_tokens(fs.last(), a1, false);
    }
}

proof fn lemma_lookup_skip(e1: Seq<Entry>, e2: Seq<Entry>, name: Seq<char>)
    requires
        forall|j: int| 0 <= j < e1.len() ==> (#[trigger] e1[j]).0 != name,
    ensures
        lookup(e1 + e2, name) == lookup(e2, name),
    decreases e1.len(),
{
    if e1.len() > 0 {
        let d = e1.drop_first();
        assert forall|j: int| 0 <= j < d.len() implies (#[trigger] d[j]).0 != name by {
            assert(d[j] == e1[j + 1]);
        }
        lemma_lookup_skip(d, e2, name);
        assert((e1 + e2).drop_first() =~= d + e2);
        assert((e1 + e2)[0] == e1[0]);
    } else {
        assert(e1 + e2 =~= e2);
    }
}

/// The entries of the first `m` flags open the entries of all of them.
proof fn lemma_scan_all_prefix(fs: Seq<FlagModel>, m: int, args: Seq<Seq<char>>)
    requires
        0 <= m <= fs.len(),
    ensures
        scan_all(fs.take(m), args).1.len() <= scan_all(fs, args).1.len(),
        scan_all(fs, args).1.take(scan_all(fs.take(m), args).1.len() as int) == scan_all(
            fs.take(m),
            args,
        ).1,
    decreases fs.len(),
{
    if m == fs.len() {
        assert(fs.take(m) =~= fs);
        assert(scan_all(fs, args).1.take(scan_all(fs, args).1.len() as int) =~= scan_all(
            fs,
            args,
        ).1);
    } else {
        let d = fs.drop_last();
        lemma_scan_all_prefix(d, m, args);
        assert(d.take(m) =~= fs.take(m));
        let e1 = scan_all(d, args).1;
        let e = scan_all(fs, args).1;
        let (a1, _) = scan_all(d, args);
        assert(e == e1 + tag(fs.last().name, scan(fs.last(), a1, false).1));
        let n = scan_all(fs.take(m), args).1.len() as int;
        assert(e.take(n) =~= e1.take(n));
    }
}

/// A declared flag that no token names reads as `NotFound` (so a bool flag
/// reads as `false`), wherever it stands among the declared flags, so long as
/// no flag declared before it has its name.
pub proof fn law_absent_flag(fs: Seq<FlagModel>, k: int, args: Seq<Seq<char>>)
    requires
        0 <= k < fs.len(),
        forall|j: int| 0 <= j < k ==> (#[trigger] fs[j]).name != fs[k].name,
        forall|i: int| 0 <= i < args.len() ==> !fs[k].names(#[trigger] args[i]),
    ensures
        lookup(scan_all(fs, args).1, fs[k].name) == Err::<FlagValueModel, FlagError>(
            FlagError::NotFound,
        ),
        !bool_of(lookup(scan_all(fs, args).1, fs[k].name)),
{
    let f = fs[k];
    let before = fs.take(k);
    let upto = fs.take(k + 1);
    assert(upto.drop_last() =~= before);
    assert(upto.last() == f);
    let (a1, e1) = scan_all(before, args);
    lemma_scan_all_keeps_tokens(before, args);
    assert forall|i: int| 0 <= i < a1.len() implies !f.names(#[trigger] a1[i]) by {
        assert(a1.contains(a1[i]));
        let j = choose|j: int| 0 <= j < args.len() && args[j] == a1[i];
        assert(!f.names(args[j]));
    }
    if f.first_match(a1) is Some {
        let c = choose|q: int| f.is_first_match(a1, q);
        assert(f.is_first_match(a1, c));
    }
    assert(scan(f, a1, false).1 =~= seq![Err::<FlagValueModel, FlagError>(FlagError::NotFound)]);
    let t = tag(f.name, scan(f, a1, false).1);
    let eu = scan_all(upto, args).1;
    assert(eu == e1 + t);
    assert forall|j: int| 0 <= j < before.len() implies (#[trigger] before[j]).name != f.name by {
        assert(before[j] == fs[j]);
    }
    lemma_keys_declared(before, args, f.name);
    lemma_scan_all_prefix(fs, k + 1, args);
    let e = scan_all(fs, args).1;
    let rest = e.skip(eu.len() as int);
    assert(e =~= eu + rest);
    assert(e1 + t + rest =~= e1 + (t + rest));
    lemma_lookup_skip(e1, t + rest, f.name);
    assert((t + rest)[0] == (f.name, Err::<FlagValueModel, FlagError>(FlagError::NotFound)));
}

/// `t v1 t v2 ...`: the token `t` before each value of `vs`.
pub open spec fn pairs(t: Seq<char>, vs: Seq<Seq<char>>) -> Seq<Seq<char>>
    decreases vs.len(),
{
    if vs.len() == 0 {
        Seq::empty()
    } else {
        seq![t, vs[0]] + pairs(t, vs.drop_first())
    }
}

proof fn lemma_pairs_scan(f: FlagModel, vs: Seq<Seq<char>>, found: bool)
    requires
        f.multiple,
        f.flag_type != FlagType::Bool,
        found || vs.len() > 0,
        forall|i: int| 0 <= i < vs.len() ==> !f.names(#[trigger] vs[i]),
    ensures
        scan(f, pairs(long_form(f.name), vs), found) == (
            Seq::<Seq<char>>::empty(),
            vs.map_values(|v: Seq<char>| coerce(f.flag_type, Some(v))),
        ),
    decreases vs.len(),
{
    let args = pairs(long_form(f.name), vs);
    if vs.len() == 0 {
        assert(!f.is_first_match(args, 0));
        assert(args =~= Seq::<Seq<char>>::empty());
        assert(vs.map_values(|v: Seq<char>| coerce(f.flag_type, Some(v))) =~= Seq::<Outcome>::empty());
    } else {
        assert(args[0] == long_form(f.name));
        assert(f.names(args[0]));
        assert(f.is_first_match(args, 0));
        lemma_first_match_unique(f, args, 0);
        let tail = vs.drop_first();
        assert forall|i: int| 0 <= i < tail.len() implies !f.names(#[trigger] tail[i]) by {
            assert(tail[i] == vs[i + 1]);
        }
        lemma_pairs_scan(f, tail, true);
        let rest = args.remove(0);
        assert(rest[0] == vs[0]);
        assert(rest.remove(0) =~= pairs(long_form(f.name), tail));
        assert(vs.map_values(|v: Seq<char>| coerce(f.flag_type, Some(v))) =~= seq![
            coerce(f.flag_type, Some(vs[0])),
        ] + tail.map_values(|v: Seq<char>| coerce(f.flag_type, Some(v))));
    }
}

/// A flag declared `multiple`, given `k >= 1` times as `--name value`, yields
/// `k` outcomes, one per value, in the order the values appear, and takes
/// every one of those tokens.
pub proof fn law_multiple_in_order(f: FlagModel, vs: Seq<Seq<char>>)
    requires
        f.multiple,
        f.flag_type != FlagType::Bool,
        vs.len() >= 1,
        forall|i: int| 0 <= i < vs.len() ==> !f.names(#[trigger] vs[i]),
    ensures
        scan(f, pairs(long_form(f.name), vs), false) == (
            Seq::<Seq<char>>::empty(),
            vs.map_values(|v: Seq<char>| coerce(f.flag_type, Some(v))),
        ),
{
    lemma_pairs_scan(f, vs, false);
}

proof fn lemma_app_tokens(program: Seq<char>, t: Seq<char>, rest: Seq<Seq<char>>)
    requires
        split_token(program) == seq![program],
        split_token(t) == seq![t],
    ensures
        app_tokens(seq![program, t] + rest) == seq![t] + normalize(rest),
{
    lemma_normalize_append(seq![program, t], rest);
    lemma_normalize_append(seq![program], seq![t]);
    assert(seq![program] + seq![t] =~= seq![program, t]);
    lemma_normalize_one(program);
    lemma_normalize_one(t);
    assert((seq![program, t] + normalize(rest)).drop_first() =~= seq![t] + normalize(rest));
}

/// A command is reached alike through its name and through any of its
/// aliases: two tokens that name the same registered command route the same
/// argument vector to the same node with the same tokens.
pub proof fn law_alias_routes_like_name<P: Fn(&Context), R: Fn(&Context) -> Result<(), String>>(
    app: App<P, R>,
    program: Seq<char>,
    k: int,
    t1: Seq<char>,
    t2: Seq<char>,
    rest: Seq<Seq<char>>,
)
    requires
        app.wf(),
        0 <= k < app.commands@.len(),
        command_names(app.commands@[k], t1),
        command_names(app.commands@[k], t2),
        split_token(program) == seq![program],
        split_token(t1) == seq![t1],
        split_token(t2) == seq![t2],
    ensures
        app_route(app, seq![program, t1] + rest) == app_route(app, seq![program, t2] + rest),
        app_route(app, seq![program, t1] + rest).path[0] == k,
{
    let cs = app.commands@;
    assert(as_root(app).commands@ == cs);
    assert(distinct_children(cs));
    assert forall|t: Seq<char>| command_names(cs[k], t) implies #[trigger] first_child(cs, t) == Some(
        k,
    ) by {
        assert forall|j: int| 0 <= j < k implies !command_names(#[trigger] cs[j], t) by {
            assert(command_names(cs[k], t));
        }
        assert(is_first_child(cs, t, k));
        lemma_first_child_unique(cs, t, k);
    }
    lemma_app_tokens(program, t1, rest);
    lemma_app_tokens(program, t2, rest);
    let a1 = app_tokens(seq![program, t1] + rest);
    let a2 = app_tokens(seq![program, t2] + rest);
    assert(a1[0] == t1);
    assert(a2[0] == t2);
    assert(a1.drop_first() =~= normalize(rest));
    assert(a2.drop_first() =~= normalize(rest));
    assert(first_child(cs, t1) == Some(k));
    assert(first_child(cs, t2) == Some(k));
}

/// `--help` after the program name shows help and succeeds without running
/// the app's handler, whatever tokens follow, unless a command is named
/// `--help`.
pub proof fn law_help_flag<P, R>(app: App<P, R>, program: Seq<char>, rest: Seq<Seq<char>>)
    requires
        !(app.handler is Unset),
        split_token(program) == seq![program],
        first_child(app.commands@, help_long()) is None,
    ensures
        app_route(app, seq![program, help_long()] + rest).path.len() == 0,
        app_route(app, seq![program, help_long()] + rest).target == TargetModel::Help,
{
    let h = help_long();
    assert forall|k: int| !is_first_eq(h, k) by {}
    assert(!crate::utils::is_short_group(h));
    assert(split_token(h) == seq![h]);
    lemma_app_tokens(program, h, rest);
    let ts = app_tokens(seq![program, h] + rest);
    assert(ts[0] == h);
    assert(as_root(app).commands@ == app.commands@);
    assert(ts.contains(h));
}

} // verus!
