use vstd::prelude::*;

verus! {

/// Why reading a flag from a `Context` did not give a value.
#[derive(Clone, Copy, Debug, PartialEq, Eq, Structural)]
pub enum FlagError {
    /// The flag was declared but did not occur, or occurred without its value.
    NotFound,
    /// No flag of that name was declared for the command.
    Undefined,
    /// The flag was declared with another type than the one asked for.
    TypeError,
    /// The value given for the flag does not read as its declared type.
    ValueTypeError,
}

/// Why running an app or a command failed.
#[derive(Clone, Debug, PartialEq, Eq)]
pub enum ActionError {
    /// The arguments led to a command with no action and no matching subcommand.
    NotFound,
    /// The action that returns a result failed with this message.
    Failed(String),
}

pub open spec fn flag_error_text(e: FlagError) -> Seq<char> {
    match e {
        FlagError::NotFound => "flag not found"@,
        FlagError::Undefined => "flag undefined"@,
        FlagError::TypeError => "flag type mismatch"@,
        FlagError::ValueTypeError => "flag value type mismatch"@,
    }
}

impl FlagError {
    /// A short human-readable description.
    pub fn message(&self) -> (r: String)
        ensures
            r@ == flag_error_text(*self),
    {
        match self {
            FlagError::NotFound => String::from_str("flag not found"),
            FlagError::Undefined => String::from_str("flag undefined"),
            FlagError::TypeError => String::from_str("flag type mismatch"),
            FlagError::ValueTypeError => String::from_str("flag value type mismatch"),
        }
    }
}

pub open spec fn action_error_text(e: ActionError) -> Seq<char> {
    match e {
        ActionError::NotFound => "no action was found for the arguments"@,
        ActionError::Failed(m) => m@,
    }
}

impl ActionError {
    /// A short human-readable description: the action's own message where it failed.
    pub fn message(&self) -> (r: String)
        ensures
            r@ == action_error_text(*self),
    {
        match self {
            ActionError::NotFound => String::from_str("no action was found for the arguments"),
            ActionError::Failed(m) => m.clone(),
        }
    }
}

} // verus!
