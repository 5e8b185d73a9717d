//! The per-connection session state machine: input lines become commands or
//! chat turns, and the conversation and user identity change accordingly.
//! The caller performs the I/O each outcome asks for.

use vstd::prelude::*;
use vstd::string::*;

use crate::llm::{
    assistant_role, error_text, system_role, turns_of, user_role, CompletionError, Message, Turn,
};
use crate::text::{
    index_of, is_white_space, lemma_index_of_at, lemma_ws_index_at, lines_of, lower_of,
    lowercase, split_lines, trim_of, trimmed, ws_index,
};

verus! {

/// A command line, parsed.
#[derive(Debug)]
pub enum Command {
    Quit,
    /// `/name` with its trimmed argument, empty when none was given.
    Name(String),
    Clear,
    Help,
    /// Any other command word, lowercased.
    Unknown(String),
}

/// A command as the contracts see it.
pub enum CommandSpec {
    Quit,
    Name(Seq<char>),
    Clear,
    Help,
    Unknown(Seq<char>),
}

impl View for Command {
    type V = CommandSpec;

    open spec fn view(&self) -> CommandSpec {
        match self {
            Command::Quit => CommandSpec::Quit,
            Command::Name(a) => CommandSpec::Name(a@),
            Command::Clear => CommandSpec::Clear,
            Command::Help => CommandSpec::Help,
            Command::Unknown(w) => CommandSpec::Unknown(w@),
        }
    }
}

/// What a command asks of the caller.
#[derive(Debug)]
pub enum CommandResult {
    /// End the session with a farewell.
    Quit,
    /// Show this text, then prompt again.
    Message(String),
    /// The name is set: store it under `name` in the summary record, then show
    /// what `SessionState::name_outcome` returns.
    SaveName(String),
}

pub enum ResultSpec {
    Quit,
    Message(Seq<char>),
    SaveName(Seq<char>),
}

impl View for CommandResult {
    type V = ResultSpec;

    open spec fn view(&self) -> ResultSpec {
        match self {
            CommandResult::Quit => ResultSpec::Quit,
            CommandResult::Message(m) => ResultSpec::Message(m@),
            CommandResult::SaveName(n) => ResultSpec::SaveName(n@),
        }
    }
}

/// What an input line asks of the caller.
#[derive(Debug)]
pub enum LineAction {
    /// Nothing to do but prompt again.
    Prompt,
    Command(CommandResult),
    /// A chat turn: log it, then ask for a completion of the conversation.
    Chat(String),
}

pub enum ActionSpec {
    Prompt,
    Command(ResultSpec),
    Chat(Seq<char>),
}

impl View for LineAction {
    type V = ActionSpec;

    open spec fn view(&self) -> ActionSpec {
        match self {
            LineAction::Prompt => ActionSpec::Prompt,
            LineAction::Command(c) => ActionSpec::Command(c@),
            LineAction::Chat(t) => ActionSpec::Chat(t@),
        }
    }
}

pub open spec fn name_view(n: Option<String>) -> Option<Seq<char>> {
    match n {
        Some(s) => Some(s@),
        None => None,
    }
}

/// The system prompt: the base prompt, and an instruction naming the user
/// when a name is known.
pub open spec fn prompt_text(base: Seq<char>, name: Option<Seq<char>>) -> Seq<char> {
    match name {
        Some(n) => base + "\n\nThe user's name is "@ + n + ". Address them by name when appropriate."@,
        None => base,
    }
}

/// The command word: the input up to its first whitespace character.
pub open spec fn command_token(input: Seq<char>) -> Seq<char> {
    input.take(ws_index(input))
}

/// The argument: the rest after the command word's delimiter, trimmed; empty
/// when the input is the word alone.
pub open spec fn command_arg(input: Seq<char>) -> Seq<char> {
    let i = ws_index(input);
    if i < input.len() {
        trim_of(input.skip(i + 1))
    } else {
        seq![]
    }
}

/// The command that the lowercased command word `w` of `input` names.
pub open spec fn command_from(w: Seq<char>, input: Seq<char>) -> CommandSpec {
    if w == "/quit"@ || w == "/exit"@ || w == "/q"@ {
        CommandSpec::Quit
    } else if w == "/name"@ {
        CommandSpec::Name(command_arg(input))
    } else if w == "/clear"@ {
        CommandSpec::Clear
    } else if w == "/help"@ || w == "/?"@ {
        CommandSpec::Help
    } else {
        CommandSpec::Unknown(w)
    }
}

pub open spec fn command_spec(input: Seq<char>) -> CommandSpec {
    command_from(lower_of(command_token(input)), input)
}

pub open spec fn help_text() -> Seq<char> {
    "\nCommands:\n/name <your name>  - Set your name\n/clear             - Clear conversation history\n/help              - Show this help\n/quit              - Disconnect\n"@
}

pub open spec fn result_of(c: CommandSpec) -> ResultSpec {
    match c {
        CommandSpec::Quit => ResultSpec::Quit,
        CommandSpec::Name(a) => if a.len() == 0 {
            ResultSpec::Message("\nUsage: /name <your name>\n"@)
        } else {
            ResultSpec::SaveName(a)
        },
        CommandSpec::Clear => ResultSpec::Message("\nConversation cleared.\n"@),
        CommandSpec::Help => ResultSpec::Message(help_text()),
        CommandSpec::Unknown(w) => ResultSpec::Message("\nUnknown command: "@ + w + "\n"@),
    }
}

/// The conversation after a command: `/name` rebuilds the system turn,
/// `/clear` keeps the system turn alone, the others change nothing.
pub open spec fn conv_after(conv: Seq<Turn>, c: CommandSpec, base: Seq<char>) -> Seq<Turn> {
    match c {
        CommandSpec::Name(a) => if a.len() > 0 && conv.len() > 0 {
            conv.update(0, (conv[0].0, prompt_text(base, Some(a))))
        } else {
            conv
        },
        CommandSpec::Clear => if conv.len() > 0 {
            conv.take(1)
        } else {
            conv
        },
        _ => conv,
    }
}

pub open spec fn name_after(name: Option<Seq<char>>, c: CommandSpec) -> Option<Seq<char>> {
    match c {
        CommandSpec::Name(a) => if a.len() > 0 {
            Some(a)
        } else {
            name
        },
        _ => name,
    }
}

/// One exchange: the user's turn and the assistant's reply.
pub open spec fn exchange(conv: Seq<Turn>, input: Seq<char>, reply: Seq<char>) -> Seq<Turn> {
    conv.push((user_role(), input)).push((assistant_role(), reply))
}

pub open spec fn after_exchanges(conv: Seq<Turn>, xs: Seq<(Seq<char>, Seq<char>)>) -> Seq<Turn>
    decreases xs.len(),
{
    if xs.len() == 0 {
        conv
    } else {
        after_exchanges(exchange(conv, xs[0].0, xs[0].1), xs.drop_first())
    }
}

/// A system turn first, then user and assistant turns in alternation.
pub open spec fn alternating(conv: Seq<Turn>) -> bool {
    &&& conv.len() >= 1
    &&& conv[0].0 == system_role()
    &&& forall|i: int|
        1 <= i < conv.len() ==> (#[trigger] conv[i]).0 == if i % 2 == 1 {
            user_role()
        } else {
            assistant_role()
        }
}

/// What a summary line says of the name: nothing unless, lowercased, it
/// starts with `name:`; then the text after its first `:`, trimmed, or no
/// name at all when the line holds no `:`.
pub open spec fn name_line(l: Seq<char>) -> Option<Option<Seq<char>>> {
    let low = lower_of(l);
    if low.len() >= 5 && low.take(5) == "name:"@ {
        let i = index_of(l, ':');
        if i < l.len() {
            Some(Some(trim_of(l.skip(i + 1))))
        } else {
            Some(None)
        }
    } else {
        None
    }
}

/// The name that the last name line among `ls` leaves, starting from `acc`.
pub open spec fn name_from_lines(ls: Seq<Seq<char>>, acc: Option<Seq<char>>) -> Option<Seq<char>>
    decreases ls.len(),
{
    if ls.len() == 0 {
        acc
    } else {
        name_from_lines(
            ls.drop_first(),
            match name_line(ls[0]) {
                Some(x) => x,
                None => acc,
            },
        )
    }
}

fn name_in_line(line: &str) -> (r: Option<Option<String>>)
    ensures
        match r {
            Some(x) => name_line(line@) == Some(name_view(x)),
            None => name_line(line@) is None,
        },
{
    let low = lowercase(line);
    if low.as_str().unicode_len() < 5 {
        return None;
    }
    let head = String::from_str(low.as_str().substring_char(0, 5));
    assert(head@ =~= low@.take(5));
    if head != String::from_str("name:") {
        return None;
    }
    let n = line.unicode_len();
    let mut i: usize = 0;
    while i < n
        invariant
            n == line@.len(),
            i <= n,
            forall|k: int| 0 <= k < i ==> line@[k] != ':',
        ensures
            i <= n,
            forall|k: int| 0 <= k < i ==> line@[k] != ':',
            i < n ==> line@[i as int] == ':',
        decreases n - i,
    {
        if line.get_char(i) == ':' {
            break;
        }
        i = i + 1;
    }
    proof {
        lemma_index_of_at(line@, ':', i as int);
    }
    if i < n {
        let v = String::from_str(trimmed(line.substring_char(i + 1, n)));
        assert(line@.subrange(i + 1, n as int) =~= line@.skip(i + 1));
        Some(Some(v))
    } else {
        Some(None)
    }
}

/// The user's name as a summary file's text records it: the last line that,
/// lowercased, starts with `name:` decides.
pub fn name_from_summary(summary: &str) -> (r: Option<String>)
    ensures
        name_view(r) == name_from_lines(lines_of(summary@), None),
{
    let lines = split_lines(summary);
    let ghost ls = lines@.map_values(|l: String| l@);
    let mut cur: Option<String> = None;
    let mut i: usize = 0;
    assert(ls.skip(0) =~= ls);
    while i < lines.len()
        invariant
            i <= lines@.len(),
            ls == lines@.map_values(|l: String| l@),
            ls == lines_of(summary@),
            name_from_lines(ls, None) == name_from_lines(ls.skip(i as int), name_view(cur)),
        decreases lines.len() - i,
    {
        assert(ls.skip(i as int).drop_first() =~= ls.skip(i + 1));
        assert(ls.skip(i as int)[0] == lines@[i as int]@);
        match name_in_line(lines[i].as_str()) {
            Some(x) => {
                cur = x;
            },
            None => {},
        }
        i = i + 1;
    }
    assert(ls.skip(i as int) =~= Seq::<Seq<char>>::empty());
    cur
}

pub proof fn lemma_push_alternating(conv: Seq<Turn>, t: Turn)
    requires
        alternating(conv),
        t.0 == if conv.len() % 2 == 1 {
            user_role()
        } else {
            assistant_role()
        },
    ensures
        alternating(conv.push(t)),
{
    let c = conv.push(t);
    assert forall|i: int| 1 <= i < c.len() implies (#[trigger] c[i]).0 == if i % 2 == 1 {
        user_role()
    } else {
        assistant_role()
    } by {
        if i < conv.len() {
            assert(c[i] == conv[i]);
        }
    }
}

pub proof fn lemma_exchanges_alternate(conv: Seq<Turn>, xs: Seq<(Seq<char>, Seq<char>)>)
    requires
        alternating(conv),
        conv.len() % 2 == 1,
    ensures
        after_exchanges(conv, xs).len() == conv.len() + 2 * xs.len(),
        alternating(after_exchanges(conv, xs)),
    decreases xs.len(),
{
    if xs.len() > 0 {
        let c1 = exchange(conv, xs[0].0, xs[0].1);
        assert(alternating(c1)) by {
            assert forall|i: int| 1 <= i < c1.len() implies (#[trigger] c1[i]).0 == if i % 2
                == 1 {
                user_role()
            } else {
                assistant_role()
            } by {
                if i < conv.len() {
                    assert(c1[i] == conv[i]);
                }
            }
        }
        lemma_exchanges_alternate(c1, xs.drop_first());
    }
}

/// After N exchanges that each got a reply, a fresh conversation holds
/// 1 + 2N turns: the system turn, then user and assistant turns alternating.
pub proof fn lemma_chat_turns(prompt: Seq<char>, xs: Seq<(Seq<char>, Seq<char>)>)
    ensures
        after_exchanges(seq![(system_role(), prompt)], xs).len() == 1 + 2 * xs.len(),
        alternating(after_exchanges(seq![(system_role(), prompt)], xs)),
{
    lemma_exchanges_alternate(seq![(system_role(), prompt)], xs);
}

/// `/clear` leaves exactly one turn, the system prompt as last built, whatever
/// the conversation's length, and keeps the name.
pub proof fn lemma_clear_keeps_prompt(conv: Seq<Turn>, name: Option<Seq<char>>, base: Seq<char>)
    requires
        conv.len() >= 1,
        conv[0] == (system_role(), prompt_text(base, name)),
    ensures
        conv_after(conv, CommandSpec::Clear, base) == seq![(system_role(), prompt_text(base, name))],
        name_after(name, CommandSpec::Clear) == name,
{
    assert(conv.take(1) =~= seq![(system_role(), prompt_text(base, name))]);
}

/// `/name` with a name, then `/clear`: the one turn left is the system prompt
/// that names the user.
pub proof fn lemma_name_then_clear(
    conv: Seq<Turn>,
    name: Option<Seq<char>>,
    base: Seq<char>,
    new_name: Seq<char>,
)
    requires
        conv.len() >= 1,
        conv[0] == (system_role(), prompt_text(base, name)),
        new_name.len() > 0,
    ensures
        ({
            let c1 = conv_after(conv, CommandSpec::Name(new_name), base);
            let n1 = name_after(name, CommandSpec::Name(new_name));
            &&& n1 == Some(new_name)
            &&& conv_after(c1, CommandSpec::Clear, base) == seq![
                (system_role(), prompt_text(base, Some(new_name))),
            ]
        }),
{
    let c1 = conv_after(conv, CommandSpec::Name(new_name), base);
    lemma_clear_keeps_prompt(c1, Some(new_name), base);
}

/// The conversation and user identity of one session.
#[derive(Debug)]
pub struct SessionState {
    pub messages: Vec<Message>,
    pub user_name: Option<String>,
}

impl SessionState {
    pub open spec fn conv(&self) -> Seq<Turn> {
        turns_of(self.messages@)
    }

    pub open spec fn name(&self) -> Option<Seq<char>> {
        name_view(self.user_name)
    }

    /// The conversation is never empty, and its first turn is the system
    /// prompt built from `base` and the current name.
    pub open spec fn wf(&self, base: Seq<char>) -> bool {
        &&& self.conv().len() >= 1
        &&& self.conv()[0] == (system_role(), prompt_text(base, self.name()))
    }

    /// A conversation holding the system prompt alone.
    pub fn new(system_prompt: &str, user_name: Option<String>) -> (r: SessionState)
        ensures
            r.conv() == seq![(system_role(), prompt_text(system_prompt@, name_view(user_name)))],
            r.name() == name_view(user_name),
            r.wf(system_prompt@),
    {
        let full_prompt = match &user_name {
            Some(n) => Self::build_system_prompt(system_prompt, Some(n.as_str())),
            None => Self::build_system_prompt(system_prompt, None),
        };
        let mut messages: Vec<Message> = Vec::new();
        messages.push(Message::system(full_prompt));
        let r = SessionState { messages, user_name };
        assert(r.conv() =~= seq![(system_role(), prompt_text(system_prompt@, name_view(user_name)))]);
        r
    }

    pub fn build_system_prompt(base_prompt: &str, user_name: Option<&str>) -> (r: String)
        ensures
            r@ == prompt_text(
                base_prompt@,
                match user_name {
                    Some(n) => Some(n@),
                    None => None,
                },
            ),
    {
        match user_name {
            Some(name) => {
                let mut r = String::from_str(base_prompt);
                r.append("\n\nThe user's name is ");
                r.append(name);
                r.append(". Address them by name when appropriate.");
                r
            },
            None => String::from_str(base_prompt),
        }
    }

    /// Sets the name and rebuilds the system turn with it.
    pub fn update_user_name(&mut self, name: &str, base_prompt: &str)
        ensures
            final(self).name() == Some(name@),
            final(self).conv() == if old(self).conv().len() > 0 {
                old(self).conv().update(
                    0,
                    (old(self).conv()[0].0, prompt_text(base_prompt@, Some(name@))),
                )
            } else {
                old(self).conv()
            },
    {
        self.user_name = Some(String::from_str(name));
        if self.messages.len() > 0 {
            let role = self.messages[0].role.clone();
            let content = Self::build_system_prompt(base_prompt, Some(name));
            self.messages.set(0, Message { role, content });
        }
        assert(self.conv() =~= if old(self).conv().len() > 0 {
            old(self).conv().update(
                0,
                (old(self).conv()[0].0, prompt_text(base_prompt@, Some(name@))),
            )
        } else {
            old(self).conv()
        });
    }

    /// Index of the first whitespace character of `s`, or its length.
    fn first_ws(s: &str) -> (r: usize)
        ensures
            r == ws_index(s@),
            r <= s@.len(),
    {
        let n = s.unicode_len();
        let mut i: usize = 0;
        while i < n
            invariant
                n == s@.len(),
                i <= n,
                forall|k: int| 0 <= k < i ==> !crate::text::is_ws(#[trigger] s@[k]),
            ensures
                i <= n,
                forall|k: int| 0 <= k < i ==> !crate::text::is_ws(#[trigger] s@[k]),
                i < n ==> crate::text::is_ws(s@[i as int]),
            decreases n - i,
        {
            if is_white_space(s.get_char(i)) {
                break;
            }
            i = i + 1;
        }
        proof {
            lemma_ws_index_at(s@, i as int);
        }
        i
    }

    /// Parses a command line: the first word, lowercased, picks the command.
    pub fn parse_command(input: &str) -> (r: Command)
        ensures
            r@ == command_spec(input@),
    {
        let i = Self::first_ws(input);
        let token = input.substring_char(0, i);
        assert(token@ =~= command_token(input@));
        Self::command_of(lowercase(token), input)
    }

    /// The command that `word`, the lowercased first word of `input`, names;
    /// `/name` takes the rest of `input`, trimmed.
    pub fn command_of(word: String, input: &str) -> (r: Command)
        ensures
            r@ == command_from(word@, input@),
    {
        if word == String::from_str("/quit") || word == String::from_str("/exit") || word
            == String::from_str("/q") {
            Command::Quit
        } else if word == String::from_str("/name") {
            let i = Self::first_ws(input);
            let n = input.unicode_len();
            if i < n {
                let arg = String::from_str(trimmed(input.substring_char(i + 1, n)));
                assert(input@.subrange(i + 1, n as int) =~= input@.skip(i + 1));
                Command::Name(arg)
            } else {
                let arg = String::new();
                assert(arg@ =~= command_arg(input@));
                Command::Name(arg)
            }
        } else if word == String::from_str("/clear") {
            Command::Clear
        } else if word == String::from_str("/help") || word == String::from_str("/?") {
            Command::Help
        } else {
            Command::Unknown(word)
        }
    }

    /// Carries out a command.
    pub fn apply_command(&mut self, cmd: Command, base_prompt: &str) -> (r: CommandResult)
        requires
            old(self).wf(base_prompt@),
        ensures
            final(self).wf(base_prompt@),
            r@ == result_of(cmd@),
            final(self).conv() == conv_after(old(self).conv(), cmd@, base_prompt@),
            final(self).name() == name_after(old(self).name(), cmd@),
    {
        match cmd {
            Command::Quit => CommandResult::Quit,
            Command::Name(arg) => {
                if arg.as_str().is_empty() {
                    CommandResult::Message(String::from_str("\nUsage: /name <your name>\n"))
                } else {
                    self.update_user_name(arg.as_str(), base_prompt);
                    CommandResult::SaveName(arg)
                }
            },
            Command::Clear => {
                self.messages.truncate(1);
                assert(self.conv() =~= old(self).conv().take(1));
                CommandResult::Message(String::from_str("\nConversation cleared.\n"))
            },
            Command::Help => CommandResult::Message(
                String::from_str(
                    "\nCommands:\n/name <your name>  - Set your name\n/clear             - Clear conversation history\n/help              - Show this help\n/quit              - Disconnect\n",
                ),
            ),
            Command::Unknown(word) => {
                let mut m = String::from_str("\nUnknown command: ");
                m.append(word.as_str());
                m.append("\n");
                CommandResult::Message(m)
            },
        }
    }

    /// Interprets a command line.
    pub fn handle_command(&mut self, input: &str, base_prompt: &str) -> (r: CommandResult)
        requires
            old(self).wf(base_prompt@),
        ensures
            final(self).wf(base_prompt@),
            r@ == result_of(command_spec(input@)),
            final(self).conv() == conv_after(old(self).conv(), command_spec(input@), base_prompt@),
            final(self).name() == name_after(old(self).name(), command_spec(input@)),
    {
        let cmd = Self::parse_command(input);
        self.apply_command(cmd, base_prompt)
    }

    /// Interprets one input line, already trimmed: an empty one is ignored, one
    /// starting with `/` is a command, anything else is the user's next chat turn.
    pub fn on_input(&mut self, input: &str, base_prompt: &str) -> (r: LineAction)
        requires
            old(self).wf(base_prompt@),
        ensures
            final(self).wf(base_prompt@),
            alternating(old(self).conv()) && old(self).conv().len() % 2 == 1 && r is Chat
                ==> alternating(final(self).conv()) && final(self).conv().len()
                == old(self).conv().len() + 1,
            ({
                let t = input@;
                if t.len() == 0 {
                    &&& r@ == ActionSpec::Prompt
                    &&& final(self).conv() == old(self).conv()
                    &&& final(self).name() == old(self).name()
                } else if t[0] == '/' {
                    &&& r@ == ActionSpec::Command(result_of(command_spec(t)))
                    &&& final(self).conv() == conv_after(
                        old(self).conv(),
                        command_spec(t),
                        base_prompt@,
                    )
                    &&& final(self).name() == name_after(old(self).name(), command_spec(t))
                } else {
                    &&& r@ == ActionSpec::Chat(t)
                    &&& final(self).conv() == old(self).conv().push((user_role(), t))
                    &&& final(self).name() == old(self).name()
                }
            }),
    {
        if input.is_empty() {
            return LineAction::Prompt;
        }
        if input.get_char(0) == '/' {
            return LineAction::Command(self.handle_command(input, base_prompt));
        }
        let text = String::from_str(input);
        self.messages.push(Message::user(String::from_str(input)));
        assert(self.conv() =~= old(self).conv().push((user_role(), input@)));
        proof {
            if alternating(old(self).conv()) && old(self).conv().len() % 2 == 1 {
                lemma_push_alternating(old(self).conv(), (user_role(), input@));
            }
        }
        LineAction::Chat(text)
    }

    /// Interprets one input line: it is trimmed, then a blank line is ignored,
    /// one starting with `/` is a command, anything else is the user's next chat turn.
    pub fn on_line(&mut self, line: &str, base_prompt: &str) -> (r: LineAction)
        requires
            old(self).wf(base_prompt@),
        ensures
            final(self).wf(base_prompt@),
            alternating(old(self).conv()) && old(self).conv().len() % 2 == 1 && r is Chat
                ==> alternating(final(self).conv()) && final(self).conv().len()
                == old(self).conv().len() + 1,
            ({
                let input = trim_of(line@);
                if input.len() == 0 {
                    &&& r@ == ActionSpec::Prompt
                    &&& final(self).conv() == old(self).conv()
                    &&& final(self).name() == old(self).name()
                } else if input[0] == '/' {
                    &&& r@ == ActionSpec::Command(result_of(command_spec(input)))
                    &&& final(self).conv() == conv_after(
                        old(self).conv(),
                        command_spec(input),
                        base_prompt@,
                    )
                    &&& final(self).name() == name_after(old(self).name(), command_spec(input))
                } else {
                    &&& r@ == ActionSpec::Chat(input)
                    &&& final(self).conv() == old(self).conv().push((user_role(), input))
                    &&& final(self).name() == old(self).name()
                }
            }),
    {
        self.on_input(trimmed(line), base_prompt)
    }

    /// Takes the completion's outcome: a reply becomes the assistant's turn;
    /// a failure leaves the conversation as it was. Returns the line to show.
    pub fn on_reply(&mut self, reply: Result<String, CompletionError>) -> (r: String)
        ensures
            final(self).name() == old(self).name(),
            alternating(old(self).conv()) && old(self).conv().len() % 2 == 0 && reply is Ok
                ==> alternating(final(self).conv()) && final(self).conv().len() % 2 == 1,
            match reply {
                Ok(t) => {
                    &&& final(self).conv() == old(self).conv().push((assistant_role(), t@))
                    &&& r@ == "AI: "@ + t@ + "\n"@
                },
                Err(e) => {
                    &&& final(self).conv() == old(self).conv()
                    &&& r@ == "AI: Sorry, I encountered an error: "@ + error_text(e) + "\n"@
                },
            },
    {
        match reply {
            Ok(t) => {
                let mut r = String::from_str("AI: ");
                r.append(t.as_str());
                r.append("\n");
                self.messages.push(Message::assistant(t));
                assert(self.conv() =~= old(self).conv().push((assistant_role(), t@)));
                proof {
                    if alternating(old(self).conv()) && old(self).conv().len() % 2 == 0 {
                        lemma_push_alternating(old(self).conv(), (assistant_role(), t@));
                    }
                }
                r
            },
            Err(e) => {
                let mut r = String::from_str("AI: Sorry, I encountered an error: ");
                r.append(e.describe().as_str());
                r.append("\n");
                r
            },
        }
    }

    /// The label of the user's lines in the transcript.
    pub fn display_name(&self) -> (r: String)
        ensures
            r@ == match self.name() {
                Some(n) => n,
                None => "User"@,
            },
    {
        match &self.user_name {
            Some(n) => n.clone(),
            None => String::from_str("User"),
        }
    }

    /// The greeting for a returning user whose name is known.
    pub fn greeting(&self) -> (r: Option<String>)
        ensures
            self.name() is None ==> r is None,
            self.name() matches Some(n) ==> r matches Some(g) && g@ == "\nWelcome back, "@ + n
                + "!\n\n"@,
    {
        match &self.user_name {
            Some(n) => {
                let mut g = String::from_str("\nWelcome back, ");
                g.append(n.as_str());
                g.append("!\n\n");
                Some(g)
            },
            None => None,
        }
    }

    /// The reply to `/name` once storing the name succeeded or failed.
    pub fn name_outcome(name: &str, saved: Result<(), String>) -> (r: String)
        ensures
            saved is Ok ==> r@ == "\nName set to: "@ + name@ + "\n"@,
            saved matches Err(e) ==> r@ == "\nError saving name: "@ + e@ + "\n"@,
    {
        match saved {
            Ok(()) => {
                let mut r = String::from_str("\nName set to: ");
                r.append(name);
                r.append("\n");
                r
            },
            Err(e) => {
                let mut r = String::from_str("\nError saving name: ");
                r.append(e.as_str());
                r.append("\n");
                r
            },
        }
    }
}

} // verus!
