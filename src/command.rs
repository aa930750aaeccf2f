use vstd::prelude::*;

use crate::context::{flags_view, parse, Context};
use crate::error::ActionError;
use crate::flag::{strings_view, Flag};
use crate::help::{command_help, render};
use crate::output::print_text;
use crate::utils::{normalize, normalized_args, strings};

verus! {

/// What runs when dispatch ends at a node: nothing, an action, or an action
/// that returns a result.
pub enum Handler<P, R> {
    Unset,
    Plain(P),
    WithResult(R),
}

/// A named command with its aliases, flags, handler and subcommands.
pub struct Command<P, R> {
    pub name: String,
    pub description: Option<String>,
    pub usage: Option<String>,
    pub alias: Option<Vec<String>>,
    pub handler: Handler<P, R>,
    pub flags: Vec<Flag>,
    pub commands: Vec<Command<P, R>>,
}

/// Where dispatch ends at the node it reached.
pub enum TargetModel {
    /// Help is shown and the run succeeds.
    Help,
    /// Help is shown and the run fails with `ActionError::NotFound`.
    Missing,
    /// The handler runs on a context built from these tokens.
    Invoke(Seq<Seq<char>>),
}

/// The child indices from the root to the reached node, and what happens there.
pub struct RouteModel {
    pub path: Seq<int>,
    pub target: TargetModel,
}

/// Where dispatch ends, as a value.
pub enum Target {
    Help,
    Missing,
    Invoke(Vec<String>),
}

/// The child indices from the root to the reached node, and what happens there.
pub struct Route {
    pub path: Vec<usize>,
    pub target: Target,
}

impl View for Route {
    type V = RouteModel;

    open spec fn view(&self) -> RouteModel {
        RouteModel {
            path: self.path@.map_values(|i: usize| i as int),
            target: match self.target {
                Target::Help => TargetModel::Help,
                Target::Missing => TargetModel::Missing,
                Target::Invoke(ts) => TargetModel::Invoke(strings(ts@)),
            },
        }
    }
}

/// The token `t` is the name or an alias of command `c`.
pub open spec fn command_names<P, R>(c: Command<P, R>, t: Seq<char>) -> bool {
    c.name@ == t || strings_view(c.alias).contains(t)
}

pub open spec fn is_first_child<P, R>(cs: Seq<Command<P, R>>, t: Seq<char>, i: int) -> bool {
    &&& 0 <= i < cs.len()
    &&& command_names(cs[i], t)
    &&& forall|j: int| 0 <= j < i ==> !command_names(#[trigger] cs[j], t)
}

/// The first of `cs` that `t` names, in registration order.
pub open spec fn first_child<P, R>(cs: Seq<Command<P, R>>, t: Seq<char>) -> Option<int> {
    if exists|i: int| is_first_child(cs, t, i) {
        Some(choose|i: int| is_first_child(cs, t, i))
    } else {
        None
    }
}

pub proof fn lemma_first_child_unique<P, R>(cs: Seq<Command<P, R>>, t: Seq<char>, i: int)
    requires
        is_first_child(cs, t, i),
    ensures
        first_child(cs, t) == Some(i),
{
    let c = choose|k: int| is_first_child(cs, t, k);
    assert(is_first_child(cs, t, c));
    if c < i {
        assert(!command_names(cs[c], t));
    } else if c > i {
        assert(!command_names(cs[i], t));
    }
}

pub open spec fn help_short() -> Seq<char> {
    seq!['-', 'h']
}

pub open spec fn help_long() -> Seq<char> {
    seq!['-', '-', 'h', 'e', 'l', 'p']
}

pub open spec fn asks_help(ts: Seq<Seq<char>>) -> bool {
    ts.contains(help_short()) || ts.contains(help_long())
}

/// What happens at a node with no matching subcommand, given its tokens.
pub open spec fn terminal(unset: bool, ts: Seq<Seq<char>>) -> TargetModel {
    if unset {
        if ts.len() == 0 {
            TargetModel::Help
        } else {
            TargetModel::Missing
        }
    } else if asks_help(ts) {
        TargetModel::Help
    } else {
        TargetModel::Invoke(ts)
    }
}

/// Dispatch at `node`, given the (normalized) tokens after the node's own.
pub open spec fn route_from<P, R>(node: Command<P, R>, ts: Seq<Seq<char>>) -> RouteModel
    decreases node, 0nat,
{
    if ts.len() > 0 {
        match first_child(node.commands@, ts[0]) {
            Some(i) => if 0 <= i < node.commands@.len() {
                let sub = resolve(node.commands@[i], ts.drop_first());
                RouteModel { path: seq![i] + sub.path, target: sub.target }
            } else {
                // first_child only gives positions within the subcommands
                RouteModel { path: Seq::empty(), target: TargetModel::Help }
            },
            None => RouteModel { path: Seq::empty(), target: terminal(node.handler is Unset, ts) },
        }
    } else {
        RouteModel { path: Seq::empty(), target: terminal(node.handler is Unset, ts) }
    }
}

/// Dispatch at `node`, given the tokens after the node's own.
pub open spec fn resolve<P, R>(node: Command<P, R>, rest: Seq<Seq<char>>) -> RouteModel
    decreases node, 1nat,
{
    route_from(node, normalize(rest))
}

/// The node that `path` leads to from `node`.
pub open spec fn node_at<P, R>(node: Command<P, R>, path: Seq<int>) -> Command<P, R>
    decreases path.len(),
{
    if path.len() == 0 {
        node
    } else {
        node_at(node.commands@[path[0]], path.drop_first())
    }
}

/// Every index of `path` stays within the subcommands it picks from.
pub open spec fn valid_path<P, R>(node: Command<P, R>, path: Seq<int>) -> bool
    decreases path.len(),
{
    path.len() == 0 || (0 <= path[0] < node.commands@.len() && valid_path(
        node.commands@[path[0]],
        path.drop_first(),
    ))
}

pub open spec fn handler_accepts<P: Fn(&Context), R: Fn(&Context) -> Result<(), String>>(
    h: Handler<P, R>,
) -> bool {
    match h {
        Handler::Plain(p) => forall|c: &Context| p.requires((c,)),
        Handler::WithResult(f) => forall|c: &Context| f.requires((c,)),
        Handler::Unset => true,
    }
}

/// No two subcommands of one node share a name or an alias.
pub open spec fn distinct_children<P, R>(cs: Seq<Command<P, R>>) -> bool {
    forall|i: int, j: int, t: Seq<char>|
        0 <= i < cs.len() && 0 <= j < cs.len() && i != j && #[trigger] command_names(cs[i], t)
            ==> !#[trigger] command_names(cs[j], t)
}

/// `c` may be registered beside `cs`: no name or alias of it is taken.
pub open spec fn fresh_child<P, R>(cs: Seq<Command<P, R>>, c: Command<P, R>) -> bool {
    forall|i: int, t: Seq<char>|
        0 <= i < cs.len() && #[trigger] command_names(c, t) ==> !#[trigger] command_names(cs[i], t)
}

impl<P: Fn(&Context), R: Fn(&Context) -> Result<(), String>> Command<P, R> {
    /// Every handler in the tree accepts any context, and siblings never
    /// share a name or an alias.
    pub open spec fn wf(self) -> bool
        decreases self,
    {
        &&& handler_accepts(self.handler)
        &&& distinct_children(self.commands@)
        &&& forall|i: int| 0 <= i < self.commands@.len() ==> (#[trigger] self.commands@[i]).wf()
    }
}

/// Registering a fresh well-formed command keeps siblings apart and the tree well formed.
pub proof fn lemma_push_child<P: Fn(&Context), R: Fn(&Context) -> Result<(), String>>(
    cs: Seq<Command<P, R>>,
    c: Command<P, R>,
)
    requires
        distinct_children(cs),
        fresh_child(cs, c),
        forall|i: int| 0 <= i < cs.len() ==> (#[trigger] cs[i]).wf(),
        c.wf(),
    ensures
        distinct_children(cs.push(c)),
        forall|i: int| 0 <= i < cs.push(c).len() ==> (#[trigger] cs.push(c)[i]).wf(),
{
    let n = cs.len() as int;
    let ps = cs.push(c);
    assert forall|i: int, j: int, t: Seq<char>|
        0 <= i < ps.len() && 0 <= j < ps.len() && i != j && #[trigger] command_names(ps[i], t)
            implies !#[trigger] command_names(ps[j], t) by {
        if i == n {
            assert(ps[j] == cs[j]);
        } else if j == n {
            assert(ps[i] == cs[i]);
            if command_names(c, t) {
                assert(!command_names(cs[i], t));
            }
        } else {
            assert(ps[i] == cs[i] && ps[j] == cs[j]);
        }
    }
    assert forall|i: int| 0 <= i < ps.len() implies (#[trigger] ps[i]).wf() by {
        if i < n {
            assert(ps[i] == cs[i]);
        }
    }
}

pub proof fn lemma_route_valid<P: Fn(&Context), R: Fn(&Context) -> Result<(), String>>(
    node: Command<P, R>,
    ts: Seq<Seq<char>>,
)
    requires
        node.wf(),
    ensures
        valid_path(node, route_from(node, ts).path),
        node_at(node, route_from(node, ts).path).wf(),
        route_from(node, ts).target is Invoke ==> !(node_at(
            node,
            route_from(node, ts).path,
        ).handler is Unset),
    decreases node, ts.len(),
{
    let r = route_from(node, ts);
    if ts.len() > 0 {
        match first_child(node.commands@, ts[0]) {
            Some(i) => {
                if 0 <= i < node.commands@.len() {
                    let child = node.commands@[i];
                    assert(child.wf());
                    lemma_route_valid(child, normalize(ts.drop_first()));
                    let sub = resolve(child, ts.drop_first());
                    assert(r.path == seq![i] + sub.path);
                    assert((seq![i] + sub.path).drop_first() =~= sub.path);
                }
            },
            None => {},
        }
    }
}

/// Whether `-h` or `--help` is among `ts`.
fn has_help_flag(ts: &Vec<String>) -> (r: bool)
    ensures
        r == asks_help(strings(ts@)),
{
    let short = String::from_str("-h");
    let long = String::from_str("--help");
    proof {
        reveal_strlit("-h");
        reveal_strlit("--help");
        assert(short@ =~= help_short());
        assert(long@ =~= help_long());
    }
    let ghost s = strings(ts@);
    let mut i: usize = 0;
    while i < ts.len()
        invariant
            i <= ts@.len(),
            s == strings(ts@),
            short@ == help_short(),
            long@ == help_long(),
            forall|j: int| 0 <= j < i ==> #[trigger] s[j] != help_short() && s[j] != help_long(),
        decreases ts@.len() - i,
    {
        if ts[i] == short || ts[i] == long {
            assert(s[i as int] == ts@[i as int]@);
            return true;
        }
        i = i + 1;
    }
    false
}

/// The position of the first of `cs` that `t` names.
pub fn select_command<P, R>(cs: &Vec<Command<P, R>>, t: &String) -> (r: Option<usize>)
    ensures
        match r {
            Some(i) => first_child(cs@, t@) == Some(i as int),
            None => first_child(cs@, t@) is None,
        },
{
    let mut i: usize = 0;
    while i < cs.len()
        invariant
            i <= cs@.len(),
            forall|j: int| 0 <= j < i ==> !command_names(#[trigger] cs@[j], t@),
        decreases cs@.len() - i,
    {
        let c = &cs[i];
        let mut hit = c.name == *t;
        if !hit {
            match &c.alias {
                Some(aliases) => {
                    let mut k: usize = 0;
                    while k < aliases.len() && !hit
                        invariant
                            c.alias == Some(*aliases),
                            k <= aliases@.len(),
                            hit ==> command_names(*c, t@),
                            !hit ==> c.name@ != t@,
                            !hit ==> forall|q: int|
                                0 <= q < k ==> #[trigger] strings_view(c.alias)[q] != t@,
                        decreases aliases@.len() - k + if hit {
                            0int
                        } else {
                            1int
                        },
                    {
                        if aliases[k] == *t {
                            assert(strings_view(c.alias)[k as int] == t@);
                            hit = true;
                        } else {
                            k = k + 1;
                        }
                    }
                    if !hit {
                        assert(!strings_view(c.alias).contains(t@));
                    }
                },
                None => {
                    assert(strings_view(c.alias) =~= Seq::<Seq<char>>::empty());
                },
            }
        }
        if hit {
            proof {
                lemma_first_child_unique(cs@, t@, i as int);
            }
            return Some(i);
        }
        i = i + 1;
    }
    assert(!exists|k: int| is_first_child(cs@, t@, k));
    None
}

impl<P, R> Command<P, R> {
    /// Dispatch from this command, given the tokens after its own.
    pub fn route(&self, rest: Vec<String>) -> (r: Route)
        ensures
            r@ == resolve(*self, strings(rest@)),
        decreases self, 1nat,
    {
        let ts = normalized_args(rest);
        route_tokens(&self.commands, self.handler.is_unset(), ts, Ghost(*self))
    }
}

impl<P, R> Handler<P, R> {
    pub fn is_unset(&self) -> (r: bool)
        ensures
            r == (*self is Unset),
    {
        match self {
            Handler::Unset => true,
            _ => false,
        }
    }
}

/// One step of dispatch at `node`, whose subcommands are `cs`.
pub(crate) fn route_tokens<P, R>(
    cs: &Vec<Command<P, R>>,
    unset: bool,
    ts: Vec<String>,
    node: Ghost<Command<P, R>>,
) -> (r: Route)
    requires
        cs@ == node@.commands@,
        unset == (node@.handler is Unset),
    ensures
        r@ == route_from(node@, strings(ts@)),
    decreases node@, 0nat,
{
    let ghost tv = strings(ts@);
    if ts.len() > 0 {
        assert(tv[0] == ts@[0]@);
        match select_command(cs, &ts[0]) {
            Some(i) => {
                let mut rest = ts;
                rest.remove(0);
                assert(strings(rest@) =~= tv.drop_first());
                proof {
                    assert(decreases_to!(node@.commands => node@.commands@[i as int]));
                }
                let sub = cs[i].route(rest);
                let mut path: Vec<usize> = Vec::new();
                path.push(i);
                let mut k: usize = 0;
                while k < sub.path.len()
                    invariant
                        k <= sub.path@.len(),
                        path@.map_values(|x: usize| x as int) == seq![i as int] + sub@.path.take(
                            k as int,
                        ),
                    decreases sub.path@.len() - k,
                {
                    let ghost prev = path@;
                    path.push(sub.path[k]);
                    assert(path@.map_values(|x: usize| x as int) =~= prev.map_values(
                        |x: usize| x as int,
                    ).push(sub.path@[k as int] as int));
                    assert(sub@.path.take(k + 1) =~= sub@.path.take(k as int).push(
                        sub@.path[k as int],
                    ));
                    k = k + 1;
                }
                assert(sub@.path.take(k as int) =~= sub@.path);
                Route { path, target: sub.target }
            },
            None => {
                let target = if unset {
                    Target::Missing
                } else if has_help_flag(&ts) {
                    Target::Help
                } else {
                    Target::Invoke(ts)
                };
                let r = Route { path: Vec::new(), target };
                assert(r@.path =~= Seq::<int>::empty());
                r
            },
        }
    } else {
        let target = if unset {
            Target::Help
        } else if has_help_flag(&ts) {
            Target::Help
        } else {
            Target::Invoke(ts)
        };
        let r = Route { path: Vec::new(), target };
        assert(r@.path =~= Seq::<int>::empty());
        r
    }
}

/// The run's result once the action that returns a result gave `out`.
pub open spec fn lift(out: Result<(), String>) -> Result<(), ActionError> {
    match out {
        Ok(()) => Ok(()),
        Err(m) => Err(ActionError::Failed(m)),
    }
}

/// Running `h` on `c` may end with `r`.
pub open spec fn invoked<P: Fn(&Context), R: Fn(&Context) -> Result<(), String>>(
    h: Handler<P, R>,
    c: Context,
    r: Result<(), ActionError>,
) -> bool {
    match h {
        Handler::Plain(p) => r == Ok::<(), ActionError>(()) && p.ensures((&c,), ()),
        Handler::WithResult(f) => exists|out: Result<(), String>|
            f.ensures((&c,), out) && r == lift(out),
        Handler::Unset => false,
    }
}

/// A run that dispatched along `route` from `root` may end with `r`: help
/// alone succeeds, a dead end fails with `NotFound`, and otherwise the reached
/// node's handler runs on the context of its tokens and flags.
pub open spec fn run_ends<P: Fn(&Context), R: Fn(&Context) -> Result<(), String>>(
    root: Command<P, R>,
    route: RouteModel,
    help: Seq<char>,
    r: Result<(), ActionError>,
) -> bool {
    match route.target {
        TargetModel::Help => r == Ok::<(), ActionError>(()),
        TargetModel::Missing => r == Err::<(), ActionError>(ActionError::NotFound),
        TargetModel::Invoke(ts) => {
            let n = node_at(root, route.path);
            exists|c: Context|
                (c@.args, c@.flags) == parse(ts, Some(flags_view(n.flags@))) && c@.help == help
                    && #[trigger] invoked(n.handler, c, r)
        },
    }
}

/// Follows `path` down from `root`.
pub(crate) fn descend<'a, P, R>(root: &'a Command<P, R>, path: &Vec<usize>, from: usize) -> (r: &'a Command<P, R>)
    requires
        from <= path@.len(),
        valid_path(*root, path@.map_values(|i: usize| i as int).skip(from as int)),
    ensures
        *r == node_at(*root, path@.map_values(|i: usize| i as int).skip(from as int)),
{
    let ghost pv = path@.map_values(|i: usize| i as int);
    let mut cur = root;
    let mut k: usize = from;
    while k < path.len()
        invariant
            from <= k <= path@.len(),
            pv == path@.map_values(|i: usize| i as int),
            valid_path(*cur, pv.skip(k as int)),
            node_at(*root, pv.skip(from as int)) == node_at(*cur, pv.skip(k as int)),
        decreases path@.len() - k,
    {
        let ghost rest = pv.skip(k as int);
        assert(rest[0] == path@[k as int] as int);
        assert(rest.drop_first() =~= pv.skip(k + 1));
        cur = &cur.commands[path[k]];
        k = k + 1;
    }
    assert(pv.skip(k as int) =~= Seq::<int>::empty());
    cur
}

/// Runs the handler of `node` on `tokens`, with `help` as the context's help text.
pub(crate) fn invoke<P: Fn(&Context), R: Fn(&Context) -> Result<(), String>>(
    handler: &Handler<P, R>,
    flags: &Vec<Flag>,
    tokens: Vec<String>,
    help: String,
) -> (r: Result<(), ActionError>)
    requires
        handler_accepts(*handler),
        !(*handler is Unset),
    ensures
        exists|c: Context|
            (c@.args, c@.flags) == parse(strings(tokens@), Some(flags_view(flags@))) && c@.help
                == help@ && #[trigger] invoked(*handler, c, r),
{
    let c = Context::from_flags(tokens, flags, help);
    match handler {
        Handler::Plain(p) => {
            p(&c);
            let r = Ok(());
            assert(invoked(*handler, c, r));
            r
        },
        Handler::WithResult(f) => {
            let out = f(&c);
            let ghost o = out;
            let r = match out {
                Ok(()) => Ok(()),
                Err(m) => Err(ActionError::Failed(m)),
            };
            assert(f.ensures((&c,), o) && r == lift(o));
            assert(invoked(*handler, c, r));
            r
        },
        Handler::Unset => Ok(()),
    }
}

impl<P: Fn(&Context), R: Fn(&Context) -> Result<(), String>> Command<P, R> {
    /// A command with this name and nothing else.
    pub fn new(name: &str) -> (r: Command<P, R>)
        ensures
            r.name@ == name@,
            r.description is None,
            r.usage is None,
            r.alias is None,
            r.handler is Unset,
            r.flags@.len() == 0,
            r.commands@.len() == 0,
            r.wf(),
    {
        Command {
            name: String::from_str(name),
            description: None,
            usage: None,
            alias: None,
            handler: Handler::Unset,
            flags: Vec::new(),
            commands: Vec::new(),
        }
    }

    /// Sets the description shown in help.
    pub fn description(self, description: &str) -> (r: Command<P, R>)
        ensures
            r == (Command { description: r.description, ..self }),
            self.wf() ==> r.wf(),
            r.description matches Some(d) && d@ == description@,
    {
        Command { description: Some(String::from_str(description)), ..self }
    }

    /// Sets the usage line shown in help.
    pub fn usage(self, usage: &str) -> (r: Command<P, R>)
        ensures
            r == (Command { usage: r.usage, ..self }),
            self.wf() ==> r.wf(),
            r.usage matches Some(u) && u@ == usage@,
    {
        Command { usage: Some(String::from_str(usage)), ..self }
    }

    /// Adds an alias: the token `name` then selects this command too.
    pub fn alias(self, name: &str) -> (r: Command<P, R>)
        ensures
            r == (Command { alias: r.alias, ..self }),
            self.wf() ==> r.wf(),
            strings_view(r.alias) == strings_view(self.alias).push(name@),
    {
        let mut aliases = match self.alias {
            Some(a) => a,
            None => Vec::new(),
        };
        let ghost before = aliases@;
        assert(before.map_values(|s: String| s@) =~= strings_view(self.alias));
        aliases.push(String::from_str(name));
        assert(aliases@.map_values(|s: String| s@) =~= before.map_values(|s: String| s@).push(
            name@,
        ));
        Command { alias: Some(aliases), ..self }
    }

    /// Declares a flag of this command.
    pub fn flag(self, flag: Flag) -> (r: Command<P, R>)
        ensures
            r == (Command { flags: r.flags, ..self }),
            self.wf() ==> r.wf(),
            r.flags@ == self.flags@.push(flag),
    {
        let mut s = self;
        s.flags.push(flag);
        s
    }

    /// Registers a subcommand; its name and aliases must not be taken.
    pub fn command(self, command: Command<P, R>) -> (r: Command<P, R>)
        requires
            fresh_child(self.commands@, command),
        ensures
            r == (Command { commands: r.commands, ..self }),
            r.commands@ == self.commands@.push(command),
            self.wf() && command.wf() ==> r.wf(),
    {
        proof {
            if self.wf() && command.wf() {
                lemma_push_child(self.commands@, command);
            }
        }
        let mut s = self;
        s.commands.push(command);
        s
    }

    /// Sets the action; a command has at most one handler.
    pub fn action(self, action: P) -> (r: Command<P, R>)
        requires
            self.handler is Unset,
        ensures
            r == (Command { handler: Handler::Plain(action), ..self }),
            self.wf() && (forall|c: &Context| action.requires((c,))) ==> r.wf(),
    {
        Command { handler: Handler::Plain(action), ..self }
    }

    /// Sets the action that returns a result; a command has at most one handler.
    pub fn action_with_result(self, action: R) -> (r: Command<P, R>)
        requires
            self.handler is Unset,
        ensures
            r == (Command { handler: Handler::WithResult(action), ..self }),
            self.wf() && (forall|c: &Context| action.requires((c,))) ==> r.wf(),
    {
        Command { handler: Handler::WithResult(action), ..self }
    }

    /// The help text of this command.
    pub fn help_text(&self) -> (r: String)
        ensures
            r@ == command_help(*self),
    {
        render(&self.name, &None, &self.description, &self.usage, &self.flags, &self.commands, &None)
    }
}

impl<P: Fn(&Context), R: Fn(&Context) -> Result<(), String>> Command<P, R> {
    /// Dispatches the tokens after this command's own: to a subcommand when
    /// the first one names it, else to this command's handler, or to help.
    pub fn run_with_result(&self, args: Vec<String>) -> (r: Result<(), ActionError>)
        requires
            self.wf(),
        ensures
            ({
                let route = resolve(*self, strings(args@));
                run_ends(*self, route, command_help(node_at(*self, route.path)), r)
            }),
    {
        let ghost rm = resolve(*self, strings(args@));
        let route = self.route(args);
        proof {
            lemma_route_valid(*self, normalize(strings(args@)));
        }
        assert(route@.path.skip(0) =~= route@.path);
        let node = descend(self, &route.path, 0);
        match route.target {
            Target::Help => {
                print_text(node.help_text().as_str());
                Ok(())
            },
            Target::Missing => {
                print_text(node.help_text().as_str());
                Err(ActionError::NotFound)
            },
            Target::Invoke(tokens) => invoke(&node.handler, &node.flags, tokens, node.help_text()),
        }
    }
}

} // verus!
