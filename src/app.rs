use vstd::prelude::*;

use crate::command::{
    descend, fresh_child, invoke, lemma_push_child, lemma_route_valid, node_at, route_from, route_tokens, run_ends,
    Command, Handler, Route, RouteModel, Target, TargetModel,
};
use crate::context::Context;
use crate::error::ActionError;
use crate::flag::Flag;
use crate::help::{command_help, help_doc, render};
use crate::output::print_text;
use crate::utils::{normalize, normalized_args, strings};

verus! {

/// The top of a command tree: its own flags and handler, its subcommands,
/// and the metadata shown in help.
pub struct App<P, R> {
    pub name: String,
    pub author: Option<String>,
    pub description: Option<String>,
    pub usage: Option<String>,
    pub version: Option<String>,
    pub commands: Vec<Command<P, R>>,
    pub handler: Handler<P, R>,
    pub flags: Vec<Flag>,
}

/// The app as the root node of its command tree.
pub open spec fn as_root<P, R>(app: App<P, R>) -> Command<P, R> {
    Command {
        name: app.name,
        description: app.description,
        usage: app.usage,
        alias: None,
        handler: app.handler,
        flags: app.flags,
        commands: app.commands,
    }
}

/// The tokens after the program name, once normalized.
pub open spec fn app_tokens(args: Seq<Seq<char>>) -> Seq<Seq<char>> {
    let ts = normalize(args);
    if ts.len() > 0 {
        ts.drop_first()
    } else {
        Seq::empty()
    }
}

/// Where the argument vector `args` (program name first) leads.
pub open spec fn app_route<P, R>(app: App<P, R>, args: Seq<Seq<char>>) -> RouteModel {
    route_from(as_root(app), app_tokens(args))
}

/// The help text of the app.
pub open spec fn app_help<P, R>(app: App<P, R>) -> Seq<char> {
    help_doc(
        app.name@,
        app.author,
        app.description,
        app.usage,
        app.flags@,
        app.commands@,
        app.version,
    )
}

/// The help text of the node that `path` leads to.
pub open spec fn help_at<P, R>(app: App<P, R>, path: Seq<int>) -> Seq<char> {
    if path.len() == 0 {
        app_help(app)
    } else {
        command_help(node_at(as_root(app), path))
    }
}

/// A run of `app` on `args` can only succeed: it does not end at a dead end,
/// and an action that returns a result at its end never fails.
pub open spec fn cannot_fail<P: Fn(&Context), R: Fn(&Context) -> Result<(), String>>(
    app: App<P, R>,
    args: Seq<Seq<char>>,
) -> bool {
    let route = app_route(app, args);
    match route.target {
        TargetModel::Missing => false,
        TargetModel::Invoke(_) => match node_at(as_root(app), route.path).handler {
            Handler::WithResult(f) => forall|c: Context, out: Result<(), String>|
                #[trigger] f.ensures((&c,), out) ==> out is Ok,
            _ => true,
        },
        TargetModel::Help => true,
    }
}

impl<P: Fn(&Context), R: Fn(&Context) -> Result<(), String>> App<P, R> {
    /// Every handler in the tree accepts any context, and sibling commands
    /// never share a name or an alias.
    pub open spec fn wf(self) -> bool {
        as_root(self).wf()
    }

    /// An app with this name and nothing else.
    pub fn new(name: &str) -> (r: App<P, R>)
        ensures
            r.name@ == name@,
            r.author is None,
            r.description is None,
            r.usage is None,
            r.version is None,
            r.commands@.len() == 0,
            r.handler is Unset,
            r.flags@.len() == 0,
            r.wf(),
    {
        App {
            name: String::from_str(name),
            author: None,
            description: None,
            usage: None,
            version: None,
            commands: Vec::new(),
            handler: Handler::Unset,
            flags: Vec::new(),
        }
    }

    /// Sets the author shown in help.
    pub fn author(self, author: &str) -> (r: App<P, R>)
        ensures
            r == (App { author: r.author, ..self }),
            self.wf() ==> r.wf(),
            r.author matches Some(a) && a@ == author@,
    {
        App { author: Some(String::from_str(author)), ..self }
    }

    /// Sets the description shown in help.
    pub fn description(self, description: &str) -> (r: App<P, R>)
        ensures
            r == (App { description: r.description, ..self }),
            self.wf() ==> r.wf(),
            r.description matches Some(d) && d@ == description@,
    {
        App { description: Some(String::from_str(description)), ..self }
    }

    /// Sets the usage line shown in help.
    pub fn usage(self, usage: &str) -> (r: App<P, R>)
        ensures
            r == (App { usage: r.usage, ..self }),
            self.wf() ==> r.wf(),
            r.usage matches Some(u) && u@ == usage@,
    {
        App { usage: Some(String::from_str(usage)), ..self }
    }

    /// Sets the version shown in help.
    pub fn version(self, version: &str) -> (r: App<P, R>)
        ensures
            r == (App { version: r.version, ..self }),
            self.wf() ==> r.wf(),
            r.version matches Some(v) && v@ == version@,
    {
        App { version: Some(String::from_str(version)), ..self }
    }

    /// Registers a command; its name and aliases must not be taken.
    pub fn command(self, command: Command<P, R>) -> (r: App<P, R>)
        requires
            fresh_child(self.commands@, command),
        ensures
            r == (App { commands: r.commands, ..self }),
            r.commands@ == self.commands@.push(command),
            self.wf() && command.wf() ==> r.wf(),
    {
        proof {
            if self.wf() && command.wf() {
                lemma_push_child(self.commands@, command);
            }
        }
        let mut s = self;
        s.commands.push(command);
        s
    }

    /// Sets the action; an app has at most one handler.
    pub fn action(self, action: P) -> (r: App<P, R>)
        requires
            self.handler is Unset,
        ensures
            r == (App { handler: Handler::Plain(action), ..self }),
            self.wf() && (forall|c: &Context| action.requires((c,))) ==> r.wf(),
    {
        App { handler: Handler::Plain(action), ..self }
    }

    /// Sets the action that returns a result; an app has at most one handler.
    pub fn action_with_result(self, action: R) -> (r: App<P, R>)
        requires
            self.handler is Unset,
        ensures
            r == (App { handler: Handler::WithResult(action), ..self }),
            self.wf() && (forall|c: &Context| action.requires((c,))) ==> r.wf(),
    {
        App { handler: Handler::WithResult(action), ..self }
    }

    /// Declares a flag of the app.
    pub fn flag(self, flag: Flag) -> (r: App<P, R>)
        ensures
            r == (App { flags: r.flags, ..self }),
            self.wf() ==> r.wf(),
            r.flags@ == self.flags@.push(flag),
    {
        let mut s = self;
        s.flags.push(flag);
        s
    }

    /// The help text of the app.
    pub fn help_text(&self) -> (r: String)
        ensures
            r@ == app_help(*self),
    {
        render(
            &self.name,
            &self.author,
            &self.description,
            &self.usage,
            &self.flags,
            &self.commands,
            &self.version,
        )
    }

    /// Where the argument vector `args` (program name first) leads.
    pub fn route(&self, args: Vec<String>) -> (r: Route)
        ensures
            r@ == app_route(*self, strings(args@)),
    {
        let mut ts = normalized_args(args);
        if ts.len() > 0 {
            let ghost before = strings(ts@);
            ts.remove(0);
            assert(strings(ts@) =~= before.drop_first());
        }
        route_tokens(&self.commands, self.handler.is_unset(), ts, Ghost(as_root(*self)))
    }
}

impl<P: Fn(&Context), R: Fn(&Context) -> Result<(), String>> App<P, R> {
    /// Runs the app on the argument vector `args` (program name first): the
    /// first token after the program name selects a command, recursively;
    /// where none is selected the reached node's handler runs, or help is
    /// shown.
    pub fn run_with_result(&self, args: Vec<String>) -> (r: Result<(), ActionError>)
        requires
            self.wf(),
        ensures
            ({
                let route = app_route(*self, strings(args@));
                run_ends(as_root(*self), route, help_at(*self, route.path), r)
            }),
    {
        let ghost root = as_root(*self);
        let ghost rm = app_route(*self, strings(args@));
        let route = self.route(args);
        proof {
            lemma_route_valid(root, app_tokens(strings(args@)));
        }
        if route.path.len() == 0 {
            match route.target {
                Target::Help => {
                    print_text(self.help_text().as_str());
                    Ok(())
                },
                Target::Missing => {
                    print_text(self.help_text().as_str());
                    Err(ActionError::NotFound)
                },
                Target::Invoke(tokens) => {
                    assert(node_at(root, rm.path) == root);
                    invoke(&self.handler, &self.flags, tokens, self.help_text())
                },
            }
        } else {
            let first = route.path[0];
            let ghost pv = route@.path;
            assert(pv.drop_first() =~= route.path@.map_values(|i: usize| i as int).skip(1));
            let node = descend(&self.commands[first], &route.path, 1);
            assert(node_at(root, pv) == *node);
            match route.target {
                Target::Help => {
                    print_text(node.help_text().as_str());
                    Ok(())
                },
                Target::Missing => {
                    print_text(node.help_text().as_str());
                    Err(ActionError::NotFound)
                },
                Target::Invoke(tokens) => invoke(
                    &node.handler,
                    &node.flags,
                    tokens,
                    node.help_text(),
                ),
            }
        }
    }

    /// Runs the app as `run_with_result` does, on arguments where the run
    /// cannot fail; a caller that must observe a failure uses
    /// `run_with_result`.
    pub fn run(&self, args: Vec<String>)
        requires
            self.wf(),
            cannot_fail(*self, strings(args@)),
    {
        let ghost av = strings(args@);
        let r = self.run_with_result(args);
        proof {
            let route = app_route(*self, av);
            let n = node_at(as_root(*self), route.path);
            if route.target is Invoke {
                let c = choose|c: Context|
                    (c@.args, c@.flags) == crate::context::parse(
                        route.target->Invoke_0,
                        Some(crate::context::flags_view(n.flags@)),
                    ) && c@.help == help_at(*self, route.path) && #[trigger] crate::command::invoked(
                        n.handler,
                        c,
                        r,
                    );
                if let Handler::WithResult(f) = n.handler {
                    let out = choose|out: Result<(), String>|
                        f.ensures((&c,), out) && r == crate::command::lift(out);
                    assert(out is Ok);
                }
            }
            assert(r is Ok);
        }
    }
}

} // verus!
