//! Plain executable actions for the presentation layer: a desktop
//! application launch or a shell command, with the metadata an entry
//! in the list carries.

use vstd::prelude::*;

verus! {

/// What an entry does when committed.
#[derive(Clone, Copy, Debug, PartialEq, Eq, Structural)]
pub enum ActionType {
    Desktop,
    Shell,
}

/// Launches a desktop application.
#[derive(Clone, Debug)]
pub struct DesktopAction {
    pub name: String,
    pub exec_cmd: String,
    pub accepts_args: bool,
}

/// Runs a shell command.
#[derive(Clone, Debug)]
pub struct ShellAction {
    pub name: String,
    pub command: String,
    pub accepts_args: bool,
}

/// One entry of the action list, with its metadata.
#[derive(Clone, Debug)]
pub struct ActionEntry {
    pub name: String,
    pub description: Option<String>,
    pub keywords: Vec<String>,
    pub desktop_action: Option<DesktopAction>,
    pub shell_action: Option<ShellAction>,
}

impl DesktopAction {
    pub fn new(name: String, exec_cmd: String, accepts_args: bool) -> (r: DesktopAction)
        ensures
            r.name == name,
            r.exec_cmd == exec_cmd,
            r.accepts_args == accepts_args,
    {
        DesktopAction { name, exec_cmd, accepts_args }
    }

    /// An entry wrapping a desktop launch.
    pub fn create_entry(
        name: String,
        exec_cmd: String,
        accepts_args: bool,
        keywords: Vec<String>,
        description: Option<String>,
    ) -> (r: ActionEntry)
        ensures
            r.name == name,
            r.description == description,
            r.keywords == keywords,
            r.desktop_action matches Some(a) && a.name@ == name@ && a.exec_cmd == exec_cmd
                && a.accepts_args == accepts_args,
            r.shell_action is None,
    {
        let copy = crate::text::chars_to_owned(name.as_str());
        let action = DesktopAction { name: copy, exec_cmd, accepts_args };
        ActionEntry {
            name,
            description,
            keywords,
            desktop_action: Some(action),
            shell_action: None,
        }
    }

    /// Whether a free-text argument may be appended at launch.
    pub fn accepts_arguments(&self) -> (r: bool)
        ensures
            r == self.accepts_args,
    {
        self.accepts_args
    }

    /// The display name.
    pub fn display_name(&self) -> (r: &String)
        ensures
            r@ == self.name@,
    {
        &self.name
    }

    /// The kind of this action.
    pub fn action_type(&self) -> (r: ActionType)
        ensures
            r == ActionType::Desktop,
    {
        ActionType::Desktop
    }
}

impl ShellAction {
    pub fn new(name: String, command: String, accepts_args: bool) -> (r: ShellAction)
        ensures
            r.name == name,
            r.command == command,
            r.accepts_args == accepts_args,
    {
        ShellAction { name, command, accepts_args }
    }

    /// An entry wrapping a shell command.
    pub fn create_entry(
        name: String,
        command: String,
        accepts_args: bool,
        keywords: Vec<String>,
        description: Option<String>,
    ) -> (r: ActionEntry)
        ensures
            r.name == name,
            r.description == description,
            r.keywords == keywords,
            r.shell_action matches Some(a) && a.name@ == name@ && a.command == command
                && a.accepts_args == accepts_args,
            r.desktop_action is None,
    {
        let copy = crate::text::chars_to_owned(name.as_str());
        let action = ShellAction { name: copy, command, accepts_args };
        ActionEntry {
            name,
            description,
            keywords,
            desktop_action: None,
            shell_action: Some(action),
        }
    }

    /// Whether a free-text argument may be appended at launch.
    pub fn accepts_arguments(&self) -> (r: bool)
        ensures
            r == self.accepts_args,
    {
        self.accepts_args
    }

    /// The display name.
    pub fn display_name(&self) -> (r: &String)
        ensures
            r@ == self.name@,
    {
        &self.name
    }

    /// The kind of this action.
    pub fn action_type(&self) -> (r: ActionType)
        ensures
            r == ActionType::Shell,
    {
        ActionType::Shell
    }
}

} // verus!
