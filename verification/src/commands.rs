//! The command table: every command the prompt takes, as `/help` lists it and as a page is
//! offered it, and the rule that keeps a credential typed into a command out of what is shown
//! back.
//!
//! There is one copy of each fact: the label `/help` prints, the line a page sends, what a
//! page may draw for the row, and the answers it may ask for.
use vstd::prelude::*;

use crate::prompt::{takes_argument, takes_argument_spec};
use crate::text::{chars_of, debug_text, extend_str, string_of, trim};

verus! {

// =======================================================================================
// What a row is made of
// =======================================================================================

/// Which block of `/help` a row belongs to.
#[derive(Clone, Copy, PartialEq, Eq, Structural, Debug)]
pub enum HelpSection {
    /// The commands themselves.
    Commands,
    /// The one line that is not a command: what typing during a turn does.
    Working,
}

/// What a page may draw for a command, if anything.
#[derive(Clone, Copy, PartialEq, Eq, Structural, Debug)]
pub enum OnPage {
    /// A report: the page shows the listing rather than sending the command.
    Panel,
    /// One action, no argument.
    Button,
    /// A setting whose value the page already holds elsewhere.
    Selector,
    /// Free-form input.
    Form,
    /// Destroys something: a button behind the page's own confirmation.
    Danger,
    /// Already on the page from another field of the frame.
    Toggles,
    /// The terminal's own, and not offered on the page at all.
    Terminal,
}

impl OnPage {
    /// The word this class is carried as, or `None` for the two the frame does not offer.
    pub fn class(self) -> (r: Option<&'static str>)
        ensures
            match self {
                OnPage::Panel => r matches Some(w) && w@ == "panel"@,
                OnPage::Button => r matches Some(w) && w@ == "button"@,
                OnPage::Selector => r matches Some(w) && w@ == "selector"@,
                OnPage::Form => r matches Some(w) && w@ == "form"@,
                OnPage::Danger => r matches Some(w) && w@ == "danger"@,
                OnPage::Toggles | OnPage::Terminal => r is None,
            },
    {
        match self {
            OnPage::Panel => Some("panel"),
            OnPage::Button => Some("button"),
            OnPage::Selector => Some("selector"),
            OnPage::Form => Some("form"),
            OnPage::Danger => Some("danger"),
            OnPage::Toggles | OnPage::Terminal => None,
        }
    }
}

/// Where a page gets the argument of a destructive row from: a list it already holds.
#[derive(Clone, Copy, PartialEq, Eq, Structural, Debug)]
pub enum ArgFrom {
    /// The conversations the sidebar shows, by their number.
    Sessions,
    /// The providers the state frame carries, by name.
    Providers,
    /// The jobs the page's panel shows, by pid.
    Jobs,
}

impl ArgFrom {
    /// The word the list is carried as.
    pub fn word(self) -> (w: &'static str)
        ensures
            w@ == match self {
                ArgFrom::Sessions => "sessions"@,
                ArgFrom::Providers => "providers"@,
                ArgFrom::Jobs => "jobs"@,
            },
    {
        match self {
            ArgFrom::Sessions => "sessions",
            ArgFrom::Providers => "providers",
            ArgFrom::Jobs => "jobs",
        }
    }
}

/// The kind of value a row's argument is, when the page draws a field for it.
#[derive(Clone, Copy, PartialEq, Eq, Structural, Debug)]
pub enum Field {
    /// One line of text, shown as it is typed.
    Text,
    /// A credential: drawn masked, cleared once sent, and never repeated in a frame.
    Password,
}

impl Field {
    /// The word this kind is carried as, which is also the input element's `type`.
    pub fn word(self) -> (w: &'static str)
        ensures
            w@ == match self {
                Field::Text => "text"@,
                Field::Password => "password"@,
            },
    {
        match self {
            Field::Text => "text",
            Field::Password => "password",
        }
    }
}

/// One answer a row's line is made of, as a page is told about it.
#[derive(Clone, Copy, Debug)]
pub struct PageArg {
    /// What the answer is, which is the input's placeholder: `base_url`.
    pub name: &'static str,
    /// How to draw it.
    pub field: Field,
    /// True when the command works without this answer; only the last answer can be.
    pub optional: bool,
}

/// An answer as a contract speaks of it: its name, its field, and whether it may be left out.
pub type ArgView = (Seq<char>, Field, bool);

impl View for PageArg {
    type V = ArgView;

    open spec fn view(&self) -> ArgView {
        (self.name@, self.field, self.optional)
    }
}

impl PageArg {
    /// An answer the command cannot do without.
    pub fn required(name: &'static str, field: Field) -> (a: PageArg)
        ensures
            a@ == (name@, field, false),
    {
        PageArg { name, field, optional: false }
    }

    /// An answer the command works without.
    pub fn optional(name: &'static str, field: Field) -> (a: PageArg)
        ensures
            a@ == (name@, field, true),
    {
        PageArg { name, field, optional: true }
    }
}

/// One row of `/help`, and one row of what a page is offered.
#[derive(Debug)]
pub struct CommandHelp {
    /// What `/help` prints in the left column: the word, and what it takes.
    pub label: &'static str,
    /// The line a page sends for it, with no argument: `/provider add`, `/name`.
    pub send: &'static str,
    /// One line about what it does.
    pub help: &'static str,
    pub section: HelpSection,
    pub on_page: OnPage,
    /// The answers a page may fill in for this row, in the order the line wants them.
    pub args: Vec<PageArg>,
    /// Set on a destructive row: which list a page offers the argument from.
    pub from: Option<ArgFrom>,
}

/// A row as a contract speaks of it: label, send, help, section, class, answers, list.
pub type RowView = (Seq<char>, Seq<char>, Seq<char>, HelpSection, OnPage, Seq<ArgView>, Option<
    ArgFrom,
>);

/// The views of a row's answers.
pub open spec fn arg_views(args: Seq<PageArg>) -> Seq<ArgView> {
    args.map_values(|a: PageArg| a@)
}

impl View for CommandHelp {
    type V = RowView;

    open spec fn view(&self) -> RowView {
        (
            self.label@,
            self.send@,
            self.help@,
            self.section,
            self.on_page,
            arg_views(self.args@),
            self.from,
        )
    }
}

impl CommandHelp {
    /// A row with no answers for a page and no list.
    pub fn row(
        label: &'static str,
        send: &'static str,
        help: &'static str,
        section: HelpSection,
        on_page: OnPage,
    ) -> (r: CommandHelp)
        ensures
            r@ == (label@, send@, help@, section, on_page, Seq::<ArgView>::empty(), None::<ArgFrom>),
    {
        let r = CommandHelp { label, send, help, section, on_page, args: Vec::new(), from: None };
        assert(arg_views(r.args@) =~= Seq::<ArgView>::empty());
        r
    }

    /// A row whose one answer a page may type into a field.
    pub fn field_row(
        label: &'static str,
        send: &'static str,
        help: &'static str,
        section: HelpSection,
        on_page: OnPage,
        args: Vec<PageArg>,
    ) -> (r: CommandHelp)
        ensures
            r@ == (label@, send@, help@, section, on_page, arg_views(args@), None::<ArgFrom>),
    {
        CommandHelp { label, send, help, section, on_page, args, from: None }
    }

    /// A row a page asks several answers for, which it sends as the words of one line.
    pub fn form_row(label: &'static str, send: &'static str, help: &'static str, args: Vec<PageArg>) -> (r:
        CommandHelp)
        ensures
            r@ == (
                label@,
                send@,
                help@,
                HelpSection::Commands,
                OnPage::Form,
                arg_views(args@),
                None::<ArgFrom>,
            ),
    {
        CommandHelp {
            label,
            send,
            help,
            section: HelpSection::Commands,
            on_page: OnPage::Form,
            args,
            from: None,
        }
    }

    /// A row that destroys something, whose argument a page offers from a list it holds.
    pub fn destroying(label: &'static str, send: &'static str, help: &'static str, from: ArgFrom) -> (r:
        CommandHelp)
        ensures
            r@ == (
                label@,
                send@,
                help@,
                HelpSection::Commands,
                OnPage::Danger,
                Seq::<ArgView>::empty(),
                Some(from),
            ),
    {
        let r = CommandHelp {
            label,
            send,
            help,
            section: HelpSection::Commands,
            on_page: OnPage::Danger,
            args: Vec::new(),
            from: Some(from),
        };
        assert(arg_views(r.args@) =~= Seq::<ArgView>::empty());
        r
    }
}

// =======================================================================================
// The table
// =======================================================================================

/// Every command the prompt takes, in the order `/help` prints them. Aliases (`/q`, `/quit`)
/// are not rows.
pub open spec fn command_table() -> Seq<RowView> {
    seq![
        ("/help"@, "/help"@, "this message"@, HelpSection::Commands, OnPage::Panel, seq![], None),
        ("/exit"@, "/exit"@, "quit"@, HelpSection::Commands, OnPage::Terminal, seq![], None),
        ("/provider"@, "/provider"@, "list providers"@, HelpSection::Commands, OnPage::Panel, seq![], None),
        ("/provider <name>"@, "/provider"@, "switch to one"@, HelpSection::Commands, OnPage::Selector, seq![], None),
        ("/provider add <name> <base_url> [model]"@, "/provider add"@, "set up a new provider; with no arguments it asks for each part"@, HelpSection::Commands, OnPage::Form, seq![("name"@, Field::Text, false), ("base_url"@, Field::Text, false), ("model"@, Field::Text, true)], None),
        ("/provider edit <name>"@, "/provider edit"@, "change one (interactive)"@, HelpSection::Commands, OnPage::Form, seq![], None),
        ("/provider key <key>"@, "/provider key"@, "set the API key for the active provider"@, HelpSection::Commands, OnPage::Form, seq![("key"@, Field::Password, false)], None),
        ("/provider rm <name>"@, "/provider rm"@, "delete one"@, HelpSection::Commands, OnPage::Danger, seq![], Some(ArgFrom::Providers)),
        ("/config"@, "/config"@, "show shell, steps, proxy"@, HelpSection::Commands, OnPage::Panel, seq![], None),
        ("/config edit"@, "/config edit"@, "change shell, steps, proxy"@, HelpSection::Commands, OnPage::Form, seq![], None),
        ("/config set <key> <value>"@, "/config set"@, "change one setting, and use it now"@, HelpSection::Commands, OnPage::Form, seq![("key"@, Field::Text, false), ("value"@, Field::Text, true)], None),
        ("/model"@, "/model"@, "show the model in force"@, HelpSection::Commands, OnPage::Panel, seq![], None),
        ("/model <name>"@, "/model"@, "switch to one"@, HelpSection::Commands, OnPage::Selector, seq![], None),
        ("/usage"@, "/usage"@, "context and token accounting"@, HelpSection::Commands, OnPage::Panel, seq![], None),
        ("/verbose [on|off|full]"@, "/verbose"@, "how much of the agent's activity to narrate"@, HelpSection::Commands, OnPage::Toggles, seq![], None),
        ("/detail [on|off]"@, "/detail"@, "print tool output (off: one line per result)"@, HelpSection::Commands, OnPage::Toggles, seq![], None),
        ("/readonly [on|off]"@, "/readonly"@, "toggle the write guard"@, HelpSection::Commands, OnPage::Toggles, seq![], None),
        ("/hear-peers [on|off]"@, "/hear-peers"@, "send what a peer says here to the model (off: show it to you only)"@, HelpSection::Commands, OnPage::Toggles, seq![], None),
        ("/thinking [off|low|medium|high]"@, "/thinking"@, "how much reasoning to ask the provider for"@, HelpSection::Commands, OnPage::Toggles, seq![], None),
        ("/say <text>"@, "/say"@, "leave a message for whoever else is working in this directory"@, HelpSection::Commands, OnPage::Form, seq![("text"@, Field::Text, false)], None),
        ("/queue <text>"@, "/queue"@, "send this after the turn that is running, without interrupting it"@, HelpSection::Commands, OnPage::Form, seq![("text"@, Field::Text, false)], None),
        ("/tools"@, "/tools"@, "list available tools"@, HelpSection::Commands, OnPage::Panel, seq![], None),
        ("/jobs"@, "/jobs"@, "the background work this run started"@, HelpSection::Commands, OnPage::Panel, seq![], None),
        ("/jobs stop <pid>"@, "/jobs stop"@, "end one of them"@, HelpSection::Commands, OnPage::Danger, seq![], Some(ArgFrom::Jobs)),
        ("/skills [name]"@, "/skills"@, "list skills, or print one as the model would see it"@, HelpSection::Commands, OnPage::Panel, seq![], None),
        ("/skill <name> [args]"@, "/skill"@, "send a skill's instructions as your next message"@, HelpSection::Commands, OnPage::Selector, seq![], None),
        ("/prompts [name]"@, "/prompts"@, "list your saved prompts, or print one as it would be sent"@, HelpSection::Commands, OnPage::Panel, seq![], None),
        ("/prompt <name> [args]"@, "/prompt"@, "send a saved prompt (typing /<name> is the same thing)"@, HelpSection::Commands, OnPage::Selector, seq![], None),
        ("/agents [name]"@, "/agents"@, "list agent profiles (.flint/agents/*.md), or print one"@, HelpSection::Commands, OnPage::Panel, seq![], None),
        ("/sessions"@, "/sessions"@, "list past sessions, numbered"@, HelpSection::Commands, OnPage::Panel, seq![], None),
        ("/resume <n|id>"@, "/resume"@, "switch to one of them"@, HelpSection::Commands, OnPage::Selector, seq![], None),
        ("/fork [n]"@, "/fork"@, "start a new conversation cut at question n"@, HelpSection::Commands, OnPage::Selector, seq![], None),
        ("/import <file>"@, "/import"@, "copy a conversation in from a session file"@, HelpSection::Commands, OnPage::Form, seq![("file"@, Field::Text, false)], None),
        ("/name [text]"@, "/name"@, "name this conversation"@, HelpSection::Commands, OnPage::Form, seq![("text"@, Field::Text, false)], None),
        ("/archive <n|id>"@, "/archive"@, "file one away, out of the list"@, HelpSection::Commands, OnPage::Danger, seq![], Some(ArgFrom::Sessions)),
        ("/delete <n|id>"@, "/delete"@, "delete one"@, HelpSection::Commands, OnPage::Danger, seq![], Some(ArgFrom::Sessions)),
        ("/new"@, "/new"@, "start a fresh conversation"@, HelpSection::Commands, OnPage::Button, seq![], None),
        ("/web [port]"@, "/web"@, "open the browser view of this conversation"@, HelpSection::Commands, OnPage::Terminal, seq![], None),
        ("/reload"@, "/reload"@, "re-read the config file (after editing it yourself)"@, HelpSection::Commands, OnPage::Button, seq![], None),
        ("!<command>"@, "!"@, "run a shell command without the model"@, HelpSection::Commands, OnPage::Terminal, seq![], None),
        ("/stop"@, "/stop"@, "the same thing as one short word, for when a key is not available -- ssh, a pipe, or the browser's composer."@, HelpSection::Working, OnPage::Terminal, seq![], None),
    ]
}

/// The views of the rows of a table.
pub open spec fn row_views(t: Seq<CommandHelp>) -> Seq<RowView> {
    t.map_values(|r: CommandHelp| r@)
}

/// The command table.
#[verifier::rlimit(50)]
pub fn commands() -> (t: Vec<CommandHelp>)
    ensures
        row_views(t@) =~~= command_table(),
{
    let mut t: Vec<CommandHelp> = Vec::new();
    t.push(CommandHelp::row("/help", "/help", "this message", HelpSection::Commands, OnPage::Panel));
    t.push(CommandHelp::row("/exit", "/exit", "quit", HelpSection::Commands, OnPage::Terminal));
    t.push(CommandHelp::row("/provider", "/provider", "list providers", HelpSection::Commands, OnPage::Panel));
    t.push(CommandHelp::row("/provider <name>", "/provider", "switch to one", HelpSection::Commands, OnPage::Selector));
    t.push(CommandHelp::form_row("/provider add <name> <base_url> [model]", "/provider add", "set up a new provider; with no arguments it asks for each part", vec![PageArg::required("name", Field::Text), PageArg::required("base_url", Field::Text), PageArg::optional("model", Field::Text)]));
    t.push(CommandHelp::row("/provider edit <name>", "/provider edit", "change one (interactive)", HelpSection::Commands, OnPage::Form));
    t.push(CommandHelp::field_row("/provider key <key>", "/provider key", "set the API key for the active provider", HelpSection::Commands, OnPage::Form, vec![PageArg::required("key", Field::Password)]));
    t.push(CommandHelp::destroying("/provider rm <name>", "/provider rm", "delete one", ArgFrom::Providers));
    t.push(CommandHelp::row("/config", "/config", "show shell, steps, proxy", HelpSection::Commands, OnPage::Panel));
    t.push(CommandHelp::row("/config edit", "/config edit", "change shell, steps, proxy", HelpSection::Commands, OnPage::Form));
    t.push(CommandHelp::form_row("/config set <key> <value>", "/config set", "change one setting, and use it now", vec![PageArg::required("key", Field::Text), PageArg::optional("value", Field::Text)]));
    t.push(CommandHelp::row("/model", "/model", "show the model in force", HelpSection::Commands, OnPage::Panel));
    t.push(CommandHelp::row("/model <name>", "/model", "switch to one", HelpSection::Commands, OnPage::Selector));
    t.push(CommandHelp::row("/usage", "/usage", "context and token accounting", HelpSection::Commands, OnPage::Panel));
    t.push(CommandHelp::row("/verbose [on|off|full]", "/verbose", "how much of the agent's activity to narrate", HelpSection::Commands, OnPage::Toggles));
    t.push(CommandHelp::row("/detail [on|off]", "/detail", "print tool output (off: one line per result)", HelpSection::Commands, OnPage::Toggles));
    t.push(CommandHelp::row("/readonly [on|off]", "/readonly", "toggle the write guard", HelpSection::Commands, OnPage::Toggles));
    t.push(CommandHelp::row("/hear-peers [on|off]", "/hear-peers", "send what a peer says here to the model (off: show it to you only)", HelpSection::Commands, OnPage::Toggles));
    t.push(CommandHelp::row("/thinking [off|low|medium|high]", "/thinking", "how much reasoning to ask the provider for", HelpSection::Commands, OnPage::Toggles));
    t.push(CommandHelp::field_row("/say <text>", "/say", "leave a message for whoever else is working in this directory", HelpSection::Commands, OnPage::Form, vec![PageArg::required("text", Field::Text)]));
    t.push(CommandHelp::field_row("/queue <text>", "/queue", "send this after the turn that is running, without interrupting it", HelpSection::Commands, OnPage::Form, vec![PageArg::required("text", Field::Text)]));
    t.push(CommandHelp::row("/tools", "/tools", "list available tools", HelpSection::Commands, OnPage::Panel));
    t.push(CommandHelp::row("/jobs", "/jobs", "the background work this run started", HelpSection::Commands, OnPage::Panel));
    t.push(CommandHelp::destroying("/jobs stop <pid>", "/jobs stop", "end one of them", ArgFrom::Jobs));
    t.push(CommandHelp::row("/skills [name]", "/skills", "list skills, or print one as the model would see it", HelpSection::Commands, OnPage::Panel));
    t.push(CommandHelp::row("/skill <name> [args]", "/skill", "send a skill's instructions as your next message", HelpSection::Commands, OnPage::Selector));
    t.push(CommandHelp::row("/prompts [name]", "/prompts", "list your saved prompts, or print one as it would be sent", HelpSection::Commands, OnPage::Panel));
    t.push(CommandHelp::row("/prompt <name> [args]", "/prompt", "send a saved prompt (typing /<name> is the same thing)", HelpSection::Commands, OnPage::Selector));
    t.push(CommandHelp::row("/agents [name]", "/agents", "list agent profiles (.flint/agents/*.md), or print one", HelpSection::Commands, OnPage::Panel));
    t.push(CommandHelp::row("/sessions", "/sessions", "list past sessions, numbered", HelpSection::Commands, OnPage::Panel));
    t.push(CommandHelp::row("/resume <n|id>", "/resume", "switch to one of them", HelpSection::Commands, OnPage::Selector));
    t.push(CommandHelp::row("/fork [n]", "/fork", "start a new conversation cut at question n", HelpSection::Commands, OnPage::Selector));
    t.push(CommandHelp::field_row("/import <file>", "/import", "copy a conversation in from a session file", HelpSection::Commands, OnPage::Form, vec![PageArg::required("file", Field::Text)]));
    t.push(CommandHelp::field_row("/name [text]", "/name", "name this conversation", HelpSection::Commands, OnPage::Form, vec![PageArg::required("text", Field::Text)]));
    t.push(CommandHelp::destroying("/archive <n|id>", "/archive", "file one away, out of the list", ArgFrom::Sessions));
    t.push(CommandHelp::destroying("/delete <n|id>", "/delete", "delete one", ArgFrom::Sessions));
    t.push(CommandHelp::row("/new", "/new", "start a fresh conversation", HelpSection::Commands, OnPage::Button));
    t.push(CommandHelp::row("/web [port]", "/web", "open the browser view of this conversation", HelpSection::Commands, OnPage::Terminal));
    t.push(CommandHelp::row("/reload", "/reload", "re-read the config file (after editing it yourself)", HelpSection::Commands, OnPage::Button));
    t.push(CommandHelp::row("!<command>", "!", "run a shell command without the model", HelpSection::Commands, OnPage::Terminal));
    t.push(CommandHelp::row("/stop", "/stop", "the same thing as one short word, for when a key is not available -- ssh, a pipe, or the browser's composer.", HelpSection::Working, OnPage::Terminal));
    assert(row_views(t@) =~~= command_table());
    t
}

// =======================================================================================
// What is echoed of a line
// =======================================================================================

/// Whether a row takes a credential among its answers.
pub open spec fn is_secret(args: Seq<ArgView>) -> bool {
    exists|j: int| 0 <= j < args.len() && (#[trigger] args[j]).1 == Field::Password
}

/// What is echoed of a line, from the `i`-th row on: the bare `send` of the first row that
/// takes a credential and that the line gives an argument, or the line as it is.
pub open spec fn echoed_from(rows: Seq<RowView>, line: Seq<char>, i: int) -> Seq<char>
    decreases rows.len() - i,
{
    if 0 <= i < rows.len() {
        if is_secret(rows[i].5) && takes_argument_spec(rows[i].1, line) {
            rows[i].1
        } else {
            echoed_from(rows, line, i + 1)
        }
    } else {
        line
    }
}

/// What the feed is told was typed, for a line: the line, unless a row of the table that
/// takes a credential is given one, when it is that row's `send` alone.
pub open spec fn echoed_spec(line: Seq<char>) -> Seq<char> {
    echoed_from(command_table(), line, 0)
}

/// Whether a row's answers hold a credential.
pub fn has_secret(args: &Vec<PageArg>) -> (b: bool)
    ensures
        b == is_secret(arg_views(args@)),
{
    let ghost v = arg_views(args@);
    let mut j: usize = 0;
    while j < args.len()
        invariant
            j <= args@.len(),
            v == arg_views(args@),
            forall|k: int| 0 <= k < j ==> (#[trigger] v[k]).1 != Field::Password,
        decreases args@.len() - j,
    {
        assert(v[j as int] == args@[j as int]@);
        if args[j].field == Field::Password {
            return true;
        }
        j = j + 1;
    }
    false
}

/// What the feed is told asked for a command's answer: the line itself, except when the
/// command's argument is a credential, when it is the bare command. A key typed into
/// `/provider key <key>` is never shown back.
pub fn echoed_input(line: &str) -> (r: &str)
    ensures
        r@ == echoed_spec(line@),
{
    let rows = commands();
    let mut i: usize = 0;
    while i < rows.len()
        invariant
            i <= rows@.len(),
            row_views(rows@) =~~= command_table(),
            echoed_from(command_table(), line@, i as int) == echoed_spec(line@),
        decreases rows@.len() - i,
    {
        let row = &rows[i];
        assert(row_views(rows@)[i as int] == rows@[i as int]@);
        let send: &'static str = row.send;
        if has_secret(&row.args) && takes_argument(send, line) {
            return send;
        }
        i = i + 1;
    }
    line
}

proof fn lemma_echoed_from(rows: Seq<RowView>, line: Seq<char>, i: int)
    requires
        0 <= i <= rows.len(),
    ensures
        (exists|j: int|
            i <= j < rows.len() && is_secret(rows[j].5) && takes_argument_spec(
                #[trigger] rows[j].1,
                line,
            )) ==> exists|j: int|
            i <= j < rows.len() && is_secret(rows[j].5) && takes_argument_spec(
                #[trigger] rows[j].1,
                line,
            ) && echoed_from(rows, line, i) == rows[j].1,
        !(exists|j: int|
            i <= j < rows.len() && is_secret(rows[j].5) && takes_argument_spec(
                #[trigger] rows[j].1,
                line,
            )) ==> echoed_from(rows, line, i) == line,
    decreases rows.len() - i,
{
    if i < rows.len() {
        lemma_echoed_from(rows, line, i + 1);
        if is_secret(rows[i].5) && takes_argument_spec(rows[i].1, line) {
            assert(i <= i < rows.len() && is_secret(rows[i].5) && takes_argument_spec(
                rows[i].1,
                line,
            ) && echoed_from(rows, line, i) == rows[i].1);
        }
    }
}

/// A credential typed into a command is never shown back: when a row that takes one is given
/// an argument, what is echoed is that row's bare `send`, shorter than the line, so none of
/// the argument is in it; any other line is echoed as it was typed.
pub proof fn law_a_credential_is_never_echoed(line: Seq<char>)
    ensures
        (exists|j: int|
            0 <= j < command_table().len() && is_secret(command_table()[j].5)
                && takes_argument_spec(#[trigger] command_table()[j].1, line)) ==> (exists|j: int|
            0 <= j < command_table().len() && is_secret(command_table()[j].5)
                && takes_argument_spec(#[trigger] command_table()[j].1, line) && echoed_spec(line)
                == command_table()[j].1) && echoed_spec(line).len() < line.len(),
        !(exists|j: int|
            0 <= j < command_table().len() && is_secret(command_table()[j].5)
                && takes_argument_spec(#[trigger] command_table()[j].1, line)) ==> echoed_spec(line)
            == line,
{
    lemma_echoed_from(command_table(), line, 0);
    if exists|j: int|
        0 <= j < command_table().len() && is_secret(command_table()[j].5) && takes_argument_spec(
            #[trigger] command_table()[j].1,
            line,
        ) {
        let j = choose|j: int|
            0 <= j < command_table().len() && is_secret(command_table()[j].5)
                && takes_argument_spec(#[trigger] command_table()[j].1, line) && echoed_spec(line)
                == command_table()[j].1;
        let send = command_table()[j].1;
        assert(crate::text::strip_prefix(line, send) is Some);
    }
}

// =======================================================================================
// The arguments of the switches
// =======================================================================================

/// What `/web <arg>` asks for: any free port with no argument, else the port written (as
/// `u16::from_str` reads it).
pub open spec fn web_port_spec(arg: Seq<char>) -> Result<u16, Seq<char>> {
    if arg.len() == 0 {
        Ok(0)
    } else {
        match crate::args::parse_u64_spec(arg) {
            Some(n) => if n <= 65535 {
                Ok(n as u16)
            } else {
                Err("/web takes a port number or nothing \u{2014} got "@ + debug_text(arg))
            },
            None => Err("/web takes a port number or nothing \u{2014} got "@ + debug_text(arg)),
        }
    }
}

/// The port `/web <arg>` opens the view on (0: any free one), or why the argument is refused.
pub fn web_port(arg: &str) -> (r: Result<u16, String>)
    ensures
        match r {
            Ok(p) => web_port_spec(arg@) == Ok::<u16, Seq<char>>(p),
            Err(e) => web_port_spec(arg@) == Err::<u16, Seq<char>>(e@),
        },
{
    if chars_of(arg).len() == 0 {
        return Ok(0);
    }
    match crate::args::parse_u64(arg) {
        Some(n) => if n <= 65535 {
            return Ok(n as u16);
        },
        None => {},
    }
    let mut out = chars_of("/web takes a port number or nothing \u{2014} got ");
    extend_str(&mut out, crate::text::debug_quoted(arg).as_str());
    Err(string_of(&out))
}

/// What an on/off switch (`/readonly`, `/hear-peers`) is set to: `on`, `off`, or with no
/// argument the opposite of what it is; any other word is refused. `/detail` also takes
/// `full` for on and `quiet` for off.
pub open spec fn switch_spec(arg: Seq<char>, current: bool, detail: bool) -> Result<bool, Seq<char>> {
    if arg == "on"@ || (detail && arg == "full"@) {
        Ok(true)
    } else if arg == "off"@ || (detail && arg == "quiet"@) {
        Ok(false)
    } else if arg.len() == 0 {
        Ok(!current)
    } else {
        Err("expected on|off, got '"@ + arg + "'"@)
    }
}

/// The value an on/off switch is set to, given its argument and its value now.
pub fn switch_to(arg: &str, current: bool, detail: bool) -> (r: Result<bool, String>)
    ensures
        match r {
            Ok(b) => switch_spec(arg@, current, detail) == Ok::<bool, Seq<char>>(b),
            Err(e) => switch_spec(arg@, current, detail) == Err::<bool, Seq<char>>(e@),
        },
{
    let w = chars_of(arg);
    if crate::text::eq_str(&w, "on") || (detail && crate::text::eq_str(&w, "full")) {
        Ok(true)
    } else if crate::text::eq_str(&w, "off") || (detail && crate::text::eq_str(&w, "quiet")) {
        Ok(false)
    } else if w.len() == 0 {
        Ok(!current)
    } else {
        let mut out = chars_of("expected on|off, got '");
        extend_str(&mut out, arg);
        extend_str(&mut out, "'");
        Err(string_of(&out))
    }
}

/// What `/thinking <arg>` asks for: with no word, only to be told the level in force;
/// otherwise that level, when it is one; any other word is refused, listing the levels.
pub open spec fn thinking_word_spec(arg: Seq<char>) -> Result<Option<Seq<char>>, Seq<char>> {
    let word = trim(arg);
    if word.len() == 0 {
        Ok(None)
    } else if crate::provider::levels().contains(word) {
        Ok(Some(word))
    } else {
        Err("expected one of off, low, medium, high, got '"@ + word + "'"@)
    }
}

/// The level `/thinking <arg>` sets, if any, or why the word is refused.
pub fn thinking_word(arg: &str) -> (r: Result<Option<String>, String>)
    ensures
        match r {
            Ok(w) => thinking_word_spec(arg@) == Ok::<Option<Seq<char>>, Seq<char>>(
                crate::text::ov(w),
            ),
            Err(e) => thinking_word_spec(arg@) == Err::<Option<Seq<char>>, Seq<char>>(e@),
        },
{
    let word = crate::text::trim_str(arg);
    if chars_of(word.as_str()).len() == 0 {
        return Ok(None);
    }
    if crate::provider::Thinking::is_a_level(word.as_str()) {
        return Ok(Some(word));
    }
    let mut out = chars_of("expected one of off, low, medium, high, got '");
    extend_str(&mut out, word.as_str());
    extend_str(&mut out, "'");
    Err(string_of(&out))
}

} // verus!
