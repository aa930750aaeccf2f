use vstd::prelude::*;

use crate::command::Command;
use crate::flag::{strings_view, Flag, FlagType};
use crate::text::{long_form, make_long, make_short, short_form};
use crate::utils::strings;

verus! {

pub open spec fn spaces(n: int) -> Seq<char> {
    Seq::new(
        if n > 0 {
            n as nat
        } else {
            0
        },
        |i: int| ' ',
    )
}

/// `parts` with `sep` between each two.
pub open spec fn join(parts: Seq<Seq<char>>, sep: Seq<char>) -> Seq<char>
    decreases parts.len(),
{
    if parts.len() == 0 {
        Seq::empty()
    } else if parts.len() == 1 {
        parts[0]
    } else {
        join(parts.drop_last(), sep) + sep + parts.last()
    }
}

/// The greatest length among `parts`, and at least `floor`.
pub open spec fn widest(parts: Seq<Seq<char>>, floor: int) -> int
    decreases parts.len(),
{
    if parts.len() == 0 {
        floor
    } else {
        let m = widest(parts.drop_last(), floor);
        if parts.last().len() > m {
            parts.last().len() as int
        } else {
            m
        }
    }
}

/// `-a` for each one-letter alias.
pub open spec fn short_forms(al: Seq<Seq<char>>) -> Seq<Seq<char>>
    decreases al.len(),
{
    if al.len() == 0 {
        Seq::empty()
    } else {
        short_forms(al.drop_last()) + if al.last().len() == 1 {
            seq![short_form(al.last())]
        } else {
            Seq::empty()
        }
    }
}

/// `--alias` for each longer alias.
pub open spec fn long_forms(al: Seq<Seq<char>>) -> Seq<Seq<char>>
    decreases al.len(),
{
    if al.len() == 0 {
        Seq::empty()
    } else {
        long_forms(al.drop_last()) + if al.last().len() > 1 {
            seq![long_form(al.last())]
        } else {
            Seq::empty()
        }
    }
}

pub open spec fn placeholder(t: FlagType) -> Seq<char> {
    match t {
        FlagType::Bool => Seq::empty(),
        FlagType::String => " <string>"@,
        FlagType::Int => " <int>"@,
        FlagType::Uint => " <uint>"@,
        FlagType::Float => " <float>"@,
    }
}

/// How a flag is written in help: its forms, then a value placeholder.
pub open spec fn flag_label(f: Flag) -> Seq<char> {
    let al = strings_view(f.alias);
    join(short_forms(al) + long_forms(al) + seq![long_form(f.name@)], ", "@) + placeholder(
        f.flag_type,
    )
}

pub open spec fn flag_labels(fs: Seq<Flag>) -> Seq<Seq<char>> {
    fs.map_values(|f: Flag| flag_label(f))
}

pub open spec fn flag_line(f: Flag, w: int) -> Seq<char> {
    "\t"@ + flag_label(f) + match f.description {
        Some(d) => spaces(w - flag_label(f).len()) + " : "@ + d@,
        None => Seq::empty(),
    } + "\n"@
}

pub open spec fn flag_lines(fs: Seq<Flag>, w: int) -> Seq<char>
    decreases fs.len(),
{
    if fs.len() == 0 {
        Seq::empty()
    } else {
        flag_lines(fs.drop_last(), w) + flag_line(fs.last(), w)
    }
}

/// The flags section: one line per flag, then the help flag, descriptions aligned.
pub open spec fn flags_block(fs: Seq<Flag>) -> Seq<char> {
    let w = widest(flag_labels(fs), "-h, --help"@.len() as int);
    "Flags:\n"@ + flag_lines(fs, w) + "\t"@ + "-h, --help"@ + spaces(w - "-h, --help"@.len())
        + " : Show help\n"@
}

pub open spec fn opt_text(v: Option<String>) -> Seq<char> {
    match v {
        Some(s) => s@,
        None => Seq::empty(),
    }
}

/// How a command is written in help: its aliases, then its name.
pub open spec fn command_label<P, R>(c: Command<P, R>) -> Seq<char> {
    let al = strings_view(c.alias);
    if al.len() > 0 {
        join(al, ", "@) + ", "@ + c.name@
    } else {
        c.name@
    }
}

pub open spec fn command_labels<P, R>(cs: Seq<Command<P, R>>) -> Seq<Seq<char>> {
    cs.map_values(|c: Command<P, R>| command_label(c))
}

pub open spec fn command_line<P, R>(c: Command<P, R>, w: int) -> Seq<char> {
    "\t"@ + command_label(c) + " "@ + spaces(w - command_label(c).len()) + ": "@ + opt_text(
        c.description,
    ) + "\n"@
}

pub open spec fn command_lines<P, R>(cs: Seq<Command<P, R>>, w: int) -> Seq<char>
    decreases cs.len(),
{
    if cs.len() == 0 {
        Seq::empty()
    } else {
        command_lines(cs.drop_last(), w) + command_line(cs.last(), w)
    }
}

/// The commands section, empty where there are no subcommands.
pub open spec fn commands_block<P, R>(cs: Seq<Command<P, R>>) -> Seq<char> {
    if cs.len() == 0 {
        Seq::empty()
    } else {
        "\nCommands:\n"@ + command_lines(cs, widest(command_labels(cs), 0))
    }
}

pub open spec fn opt_section(title: Seq<char>, v: Option<String>) -> Seq<char> {
    match v {
        Some(s) => title + s@ + "\n\n"@,
        None => Seq::empty(),
    }
}

/// The whole help text of an app or a command.
pub open spec fn help_doc<P, R>(
    name: Seq<char>,
    author: Option<String>,
    description: Option<String>,
    usage: Option<String>,
    fs: Seq<Flag>,
    cs: Seq<Command<P, R>>,
    version: Option<String>,
) -> Seq<char> {
    "Name:\n\t"@ + name + "\n\n"@ + opt_section("Author:\n\t"@, author) + opt_section(
        "Description:\n\t"@,
        description,
    ) + opt_section("Usage:\n\t"@, usage) + flags_block(fs) + commands_block(cs) + match version {
        Some(v) => "\nVersion:\n\t"@ + v@ + "\n"@,
        None => Seq::empty(),
    }
}

/// The help text of a command.
pub open spec fn command_help<P, R>(c: Command<P, R>) -> Seq<char> {
    help_doc(c.name@, None, c.description, c.usage, c.flags@, c.commands@, None)
}

fn spaces_exec(n: usize) -> (r: String)
    ensures
        r@ == spaces(n as int),
{
    let mut r = String::new();
    let mut i: usize = 0;
    while i < n
        invariant
            i <= n,
            r@ == spaces(i as int),
        decreases n - i,
    {
        r.append(" ");
        proof {
            reveal_strlit(" ");
        }
        i = i + 1;
        assert(r@ =~= spaces(i as int));
    }
    r
}

/// `n - m` spaces, none where `m >= n`.
fn pad(n: usize, m: usize) -> (r: String)
    ensures
        r@ == spaces(n - m),
{
    if n > m {
        spaces_exec(n - m)
    } else {
        assert(spaces(n - m) =~= Seq::<char>::empty());
        String::new()
    }
}

fn join_exec(parts: &Vec<String>, sep: &str) -> (r: String)
    ensures
        r@ == join(strings(parts@), sep@),
{
    let ghost ps = strings(parts@);
    if parts.len() == 0 {
        return String::new();
    }
    let mut r = parts[0].clone();
    assert(ps.take(1).drop_last().len() == 0);
    let mut i: usize = 1;
    while i < parts.len()
        invariant
            1 <= i <= parts@.len(),
            ps == strings(parts@),
            r@ == join(ps.take(i as int), sep@),
        decreases parts@.len() - i,
    {
        r.append(sep);
        r.append(parts[i].as_str());
        proof {
            let t = ps.take(i + 1);
            assert(t.drop_last() =~= ps.take(i as int));
            assert(t.last() == parts@[i as int]@);
        }
        i = i + 1;
    }
    assert(ps.take(i as int) =~= ps);
    r
}

fn widest_exec(parts: &Vec<String>, floor: usize) -> (r: usize)
    ensures
        r as int == widest(strings(parts@), floor as int),
{
    let ghost ps = strings(parts@);
    let mut w = floor;
    let mut i: usize = 0;
    while i < parts.len()
        invariant
            i <= parts@.len(),
            ps == strings(parts@),
            w as int == widest(ps.take(i as int), floor as int),
        decreases parts@.len() - i,
    {
        let n = parts[i].as_str().unicode_len();
        proof {
            let t = ps.take(i + 1);
            assert(t.drop_last() =~= ps.take(i as int));
            assert(t.last() == parts@[i as int]@);
        }
        if n > w {
            w = n;
        }
        i = i + 1;
    }
    assert(ps.take(i as int) =~= ps);
    w
}

fn alias_forms(al: &Vec<String>) -> (r: Vec<String>)
    ensures
        strings(r@) == short_forms(strings(al@)) + long_forms(strings(al@)),
{
    let ghost a = strings(al@);
    let mut shorts: Vec<String> = Vec::new();
    let mut longs: Vec<String> = Vec::new();
    let mut i: usize = 0;
    while i < al.len()
        invariant
            i <= al@.len(),
            a == strings(al@),
            strings(shorts@) == short_forms(a.take(i as int)),
            strings(longs@) == long_forms(a.take(i as int)),
        decreases al@.len() - i,
    {
        let n = al[i].as_str().unicode_len();
        let ghost s0 = shorts@;
        let ghost l0 = longs@;
        proof {
            let t = a.take(i + 1);
            assert(t.drop_last() =~= a.take(i as int));
            assert(t.last() == al@[i as int]@);
        }
        if n == 1 {
            shorts.push(make_short(al[i].as_str()));
            assert(strings(shorts@) =~= strings(s0) + seq![short_form(al@[i as int]@)]);
        } else {
            assert(short_forms(a.take(i + 1)) =~= short_forms(a.take(i as int)));
        }
        if n > 1 {
            longs.push(make_long(al[i].as_str()));
            assert(strings(longs@) =~= strings(l0) + seq![long_form(al@[i as int]@)]);
        } else {
            assert(long_forms(a.take(i + 1)) =~= long_forms(a.take(i as int)));
        }
        i = i + 1;
    }
    assert(a.take(i as int) =~= a);
    let ghost s1 = strings(shorts@);
    let ghost l1 = strings(longs@);
    shorts.append(&mut longs);
    assert(strings(shorts@) =~= s1 + l1);
    shorts
}

fn placeholder_exec(t: FlagType) -> (r: String)
    ensures
        r@ == placeholder(t),
{
    match t {
        FlagType::Bool => String::new(),
        FlagType::String => String::from_str(" <string>"),
        FlagType::Int => String::from_str(" <int>"),
        FlagType::Uint => String::from_str(" <uint>"),
        FlagType::Float => String::from_str(" <float>"),
    }
}

fn flag_label_exec(f: &Flag) -> (r: String)
    ensures
        r@ == flag_label(*f),
{
    let mut forms = match &f.alias {
        Some(al) => alias_forms(al),
        None => Vec::new(),
    };
    proof {
        if f.alias is None {
            assert(strings_view(f.alias) =~= Seq::<Seq<char>>::empty());
            assert(short_forms(Seq::<Seq<char>>::empty()) + long_forms(Seq::<Seq<char>>::empty())
                =~= Seq::<Seq<char>>::empty());
            assert(strings(forms@) =~= Seq::<Seq<char>>::empty());
        }
    }
    let ghost before = strings(forms@);
    forms.push(make_long(f.name.as_str()));
    assert(strings(forms@) =~= before + seq![long_form(f.name@)]);
    let mut r = join_exec(&forms, ", ");
    r.append(placeholder_exec(f.flag_type).as_str());
    r
}

/// The flags section of a help text.
pub fn flags_block_exec(fs: &Vec<Flag>) -> (r: String)
    ensures
        r@ == flags_block(fs@),
{
    let mut labels: Vec<String> = Vec::new();
    let mut i: usize = 0;
    while i < fs.len()
        invariant
            i <= fs@.len(),
            strings(labels@) == flag_labels(fs@.take(i as int)),
        decreases fs@.len() - i,
    {
        let ghost l0 = labels@;
        let label = flag_label_exec(&fs[i]);
        let ghost lv = label@;
        labels.push(label);
        assert(strings(labels@) =~= strings(l0).push(lv));
        assert(fs@.take(i + 1) =~= fs@.take(i as int).push(fs@[i as int]));
        assert(flag_labels(fs@.take(i + 1)) =~= flag_labels(fs@.take(i as int)).push(lv));
        i = i + 1;
    }
    assert(fs@.take(i as int) =~= fs@);
    let help_label = "-h, --help";
    let w = widest_exec(&labels, help_label.unicode_len());
    let mut r = String::from_str("Flags:\n");
    let ghost head = r@;
    let mut j: usize = 0;
    while j < fs.len()
        invariant
            j <= fs@.len(),
            labels@.len() == fs@.len(),
            strings(labels@) == flag_labels(fs@),
            w as int == widest(flag_labels(fs@), help_label@.len() as int),
            head == "Flags:\n"@,
            r@ == head + flag_lines(fs@.take(j as int), w as int),
        decreases fs@.len() - j,
    {
        let f = &fs[j];
        assert(strings(labels@)[j as int] == labels@[j as int]@);
        assert(flag_labels(fs@)[j as int] == flag_label(fs@[j as int]));
        let ghost r0 = r@;
        r.append("\t");
        r.append(labels[j].as_str());
        match &f.description {
            Some(d) => {
                let n = labels[j].as_str().unicode_len();
                r.append(pad(w, n).as_str());
                r.append(" : ");
                r.append(d.as_str());
            },
            None => {},
        }
        r.append("\n");
        proof {
            let t = fs@.take(j + 1);
            assert(t.drop_last() =~= fs@.take(j as int));
            assert(t.last() == fs@[j as int]);
            assert(r@ =~= r0 + flag_line(fs@[j as int], w as int));
        }
        j = j + 1;
    }
    r.append("\t");
    r.append(help_label);
    r.append(pad(w, help_label.unicode_len()).as_str());
    r.append(" : Show help\n");
    assert(fs@.take(j as int) =~= fs@);
    r
}

fn command_label_exec<P, R>(c: &Command<P, R>) -> (r: String)
    ensures
        r@ == command_label(*c),
{
    match &c.alias {
        Some(al) => {
            if al.len() > 0 {
                let mut r = join_exec(al, ", ");
                r.append(", ");
                r.append(c.name.as_str());
                r
            } else {
                c.name.clone()
            }
        },
        None => c.name.clone(),
    }
}

/// The commands section of a help text.
pub fn commands_block_exec<P, R>(cs: &Vec<Command<P, R>>) -> (r: String)
    ensures
        r@ == commands_block(cs@),
{
    if cs.len() == 0 {
        return String::new();
    }
    let mut labels: Vec<String> = Vec::new();
    let mut i: usize = 0;
    while i < cs.len()
        invariant
            i <= cs@.len(),
            strings(labels@) == command_labels(cs@.take(i as int)),
        decreases cs@.len() - i,
    {
        let ghost l0 = labels@;
        let label = command_label_exec(&cs[i]);
        let ghost lv = label@;
        labels.push(label);
        assert(strings(labels@) =~= strings(l0).push(lv));
        assert(cs@.take(i + 1) =~= cs@.take(i as int).push(cs@[i as int]));
        assert(command_labels(cs@.take(i + 1)) =~= command_labels(cs@.take(i as int)).push(lv));
        i = i + 1;
    }
    assert(cs@.take(i as int) =~= cs@);
    let w = widest_exec(&labels, 0);
    let mut r = String::from_str("\nCommands:\n");
    let ghost head = r@;
    let mut j: usize = 0;
    while j < cs.len()
        invariant
            j <= cs@.len(),
            labels@.len() == cs@.len(),
            strings(labels@) == command_labels(cs@),
            w as int == widest(command_labels(cs@), 0),
            head == "\nCommands:\n"@,
            r@ == head + command_lines(cs@.take(j as int), w as int),
        decreases cs@.len() - j,
    {
        let c = &cs[j];
        assert(strings(labels@)[j as int] == labels@[j as int]@);
        assert(command_labels(cs@)[j as int] == command_label(cs@[j as int]));
        let ghost r0 = r@;
        let n = labels[j].as_str().unicode_len();
        r.append("\t");
        r.append(labels[j].as_str());
        r.append(" ");
        r.append(pad(w, n).as_str());
        r.append(": ");
        match &c.description {
            Some(d) => r.append(d.as_str()),
            None => {},
        }
        r.append("\n");
        proof {
            let t = cs@.take(j + 1);
            assert(t.drop_last() =~= cs@.take(j as int));
            assert(t.last() == cs@[j as int]);
            assert(r@ =~= r0 + command_line(cs@[j as int], w as int));
        }
        j = j + 1;
    }
    assert(cs@.take(j as int) =~= cs@);
    r
}

fn append_section(r: &mut String, title: &str, v: &Option<String>)
    ensures
        final(r)@ == old(r)@ + opt_section(title@, *v),
{
    match v {
        Some(s) => {
            r.append(title);
            r.append(s.as_str());
            r.append("\n\n");
        },
        None => {},
    }
}

/// The whole help text of an app or a command.
pub fn render<P, R>(
    name: &String,
    author: &Option<String>,
    description: &Option<String>,
    usage: &Option<String>,
    fs: &Vec<Flag>,
    cs: &Vec<Command<P, R>>,
    version: &Option<String>,
) -> (r: String)
    ensures
        r@ == help_doc(name@, *author, *description, *usage, fs@, cs@, *version),
{
    let mut r = String::from_str("Name:\n\t");
    r.append(name.as_str());
    r.append("\n\n");
    append_section(&mut r, "Author:\n\t", author);
    append_section(&mut r, "Description:\n\t", description);
    append_section(&mut r, "Usage:\n\t", usage);
    r.append(flags_block_exec(fs).as_str());
    r.append(commands_block_exec(cs).as_str());
    match version {
        Some(v) => {
            r.append("\nVersion:\n\t");
            r.append(v.as_str());
            r.append("\n");
        },
        None => {},
    }
    r
}

} // verus!
