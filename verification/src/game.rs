//! The session: all computers, which of them is active, the programs that
//! wait to be started, and the programs that are running and wait for
//! input. Running a program is a step from one state of the session to the
//! next that says what is to be printed; whoever drives the session reads
//! the lines and sends the messages that the session asks for.

pub mod programs;
pub mod roster;

use crate::command::{parse_command, tokens};
use crate::computer::{Computer, ComputerId, ComputerModel};
use crate::fs::{ContentModel, FsError, Node, NodeModel};
use crate::ipc::msg::{Message, SwitchComputerMessage};
use crate::subprocess::fs::{cat_text, cd_spec, change_directory, concatenate, list, ls_text};
use crate::subprocess::sys::{
    check_login, end_session, help, help_text, login_spec, logout_spec, prompt, prompt_text,
    which, which_text, Login,
};
use crate::subprocess::Builtin;
use crate::text::views;
use std::collections::VecDeque;
use vstd::hash_map::StringHashMap;
use vstd::prelude::*;
use vstd::string::*;

verus! {

/// Something that a program shows.
#[derive(Debug, PartialEq, Eq)]
pub enum Output {
    /// Text to print as it is.
    Text(String),
    /// The screen and what has scrolled off it are to be cleared.
    Clear,
}

/// Something that a program shows, as a mathematical value.
pub enum OutputModel {
    Text(Seq<char>),
    Clear,
}

impl View for Output {
    type V = OutputModel;

    open spec fn view(&self) -> OutputModel {
        match self {
            Output::Text(t) => OutputModel::Text(t@),
            Output::Clear => OutputModel::Clear,
        }
    }
}

/// What the outputs are, one for one.
pub open spec fn output_models(s: Seq<Output>) -> Seq<OutputModel> {
    Seq::new(s.len(), |i: int| s[i]@)
}

/// A text as what a program shows: nothing where the text is empty.
pub open spec fn text_output(t: Seq<char>) -> Seq<OutputModel> {
    if t.len() == 0 {
        Seq::empty()
    } else {
        seq![OutputModel::Text(t)]
    }
}

/// A program that is running and waits for input.
#[derive(Debug, PartialEq, Eq)]
pub enum Frame {
    /// The shell waits for a command line.
    Shell,
    /// `ssh` to the computer at place `target` waits for the user's name.
    SshUsername { target: usize },
    /// `ssh` waits for the password.
    SshPassword { target: usize, username: String },
    /// `ssh` waits for the controller to be told of the switch.
    SshSwitch { target: usize },
}

/// A program that is running and waits for input, as a mathematical value.
pub enum FrameModel {
    Shell,
    SshUsername { target: nat },
    SshPassword { target: nat, username: Seq<char> },
    SshSwitch { target: nat },
}

impl View for Frame {
    type V = FrameModel;

    open spec fn view(&self) -> FrameModel {
        match self {
            Frame::Shell => FrameModel::Shell,
            Frame::SshUsername { target } => FrameModel::SshUsername { target: *target as nat },
            Frame::SshPassword { target, username } => FrameModel::SshPassword {
                target: *target as nat,
                username: username@,
            },
            Frame::SshSwitch { target } => FrameModel::SshSwitch { target: *target as nat },
        }
    }
}

impl FrameModel {
    /// The computer that the program is about, if it is about one.
    pub open spec fn target(self) -> Option<nat> {
        match self {
            FrameModel::Shell => None,
            FrameModel::SshUsername { target } => Some(target),
            FrameModel::SshPassword { target, .. } => Some(target),
            FrameModel::SshSwitch { target } => Some(target),
        }
    }
}

/// What the session needs next from whoever drives it.
#[derive(Debug, PartialEq, Eq)]
pub enum Request {
    /// No program is running: the next waiting program can be started.
    Idle,
    /// A line is to be read after this prompt. `hidden` asks that what is
    /// typed be not shown; `commands` says that the line is a command line,
    /// for which completion is offered and which is remembered.
    ReadLine { prompt: String, hidden: bool, commands: bool },
    /// The message is to be sent to the controller.
    Send(Message),
}

/// What the session needs next, as a mathematical value.
pub enum RequestModel {
    Idle,
    ReadLine { prompt: Seq<char>, hidden: bool, commands: bool },
    Send(Message),
}

impl View for Request {
    type V = RequestModel;

    open spec fn view(&self) -> RequestModel {
        match self {
            Request::Idle => RequestModel::Idle,
            Request::ReadLine { prompt, hidden, commands } => RequestModel::ReadLine {
                prompt: prompt@,
                hidden: *hidden,
                commands: *commands,
            },
            Request::Send(m) => RequestModel::Send(*m),
        }
    }
}

/// The session as a mathematical value.
pub struct GameModel {
    pub computers: Seq<ComputerModel>,
    /// The place of the active computer.
    pub current: nat,
    /// The programs that wait to be started, the next one first: name and
    /// arguments of each.
    pub queue: Seq<(Seq<char>, Seq<Seq<char>>)>,
    /// The programs that are running, the innermost last.
    pub frames: Seq<FrameModel>,
}

/// The place of the computer with this address: the last one, where several
/// have the same.
pub open spec fn address_index(computers: Seq<ComputerModel>, addr: Seq<char>) -> Option<nat>
    decreases computers.len(),
{
    if computers.len() == 0 {
        None
    } else if computers.last().address == addr {
        Some((computers.len() - 1) as nat)
    } else {
        address_index(computers.drop_last(), addr)
    }
}

/// The place of the first computer with this identity, from place `from`
/// on.
pub open spec fn id_index(
    computers: Seq<ComputerModel>,
    id: ComputerId,
    from: nat,
) -> Option<nat>
    decreases computers.len() - from,
{
    if from >= computers.len() {
        None
    } else if computers[from as int].id == id {
        Some(from)
    } else {
        id_index(computers, id, from + 1)
    }
}

/// A place found for an address is a place of a computer with that address.
pub proof fn lemma_address_index(computers: Seq<ComputerModel>, addr: Seq<char>)
    ensures
        match address_index(computers, addr) {
            Some(i) => i < computers.len() && computers[i as int].address == addr,
            None => forall|j: int|
                0 <= j < computers.len() ==> (#[trigger] computers[j]).address != addr,
        },
    decreases computers.len(),
{
    if computers.len() > 0 && computers.last().address != addr {
        lemma_address_index(computers.drop_last(), addr);
        assert forall|j: int| 0 <= j < computers.len() && address_index(computers, addr)
            is None implies (#[trigger] computers[j]).address != addr by {
            if j < computers.len() - 1 {
                assert(computers.drop_last()[j] == computers[j]);
            }
        }
    }
}

/// Computers with the same addresses in the same places are found alike.
pub proof fn lemma_address_index_same(
    a: Seq<ComputerModel>,
    b: Seq<ComputerModel>,
    addr: Seq<char>,
)
    requires
        a.len() == b.len(),
        forall|i: int| 0 <= i < a.len() ==> (#[trigger] a[i]).address == b[i].address,
    ensures
        address_index(a, addr) == address_index(b, addr),
    decreases a.len(),
{
    if a.len() > 0 {
        assert(a.last().address == b[b.len() - 1].address);
        assert forall|i: int| 0 <= i < a.drop_last().len() implies (#[trigger] a.drop_last()[i]).address
            == b.drop_last()[i].address by {
            assert(a.drop_last()[i] == a[i]);
        }
        lemma_address_index_same(a.drop_last(), b.drop_last(), addr);
    }
}

/// Whether a program is given a number of arguments that it does not take:
/// `ls` takes at most one and `ssh` exactly one. Such a call is handed to
/// `help`.
pub open spec fn usage_error(exe: Builtin, n: nat) -> bool {
    (exe == Builtin::Ls && n > 1) || (exe == Builtin::Ssh && n != 1)
}

/// The name under which a program asks `help` about itself.
pub open spec fn usage_topic(exe: Builtin) -> Seq<char> {
    if exe == Builtin::Ls {
        "ls"@
    } else {
        "ssh"@
    }
}

impl GameModel {
    /// What must hold of a session: there is a computer, the active one is
    /// one of them, every computer has a user who is logged in, and every
    /// running program is about an existing computer.
    pub open spec fn wf(self) -> bool {
        &&& self.computers.len() > 0
        &&& self.current < self.computers.len()
        &&& forall|i: int|
            0 <= i < self.computers.len() ==> (#[trigger] self.computers[i]).has_current_user()
        &&& forall|i: int|
            0 <= i < self.frames.len() ==> match (#[trigger] self.frames[i]).target() {
                Some(t) => t < self.computers.len(),
                None => true,
            }
    }

    /// The active computer.
    pub open spec fn current_computer(self) -> ComputerModel {
        self.computers[self.current as int]
    }

    /// The session with another state of the active computer.
    pub open spec fn with_current(self, c: ComputerModel) -> GameModel {
        GameModel { computers: self.computers.update(self.current as int, c), ..self }
    }

    /// The session with one more running program.
    pub open spec fn pushed(self, f: FrameModel) -> GameModel {
        GameModel { frames: self.frames.push(f), ..self }
    }

    /// The session without the innermost running program.
    pub open spec fn popped(self) -> GameModel {
        GameModel { frames: self.frames.drop_last(), ..self }
    }

    /// The session with one more program waiting to be started.
    pub open spec fn queued(self, name: Seq<char>, args: Seq<Seq<char>>) -> GameModel {
        GameModel { queue: self.queue.push((name, args)), ..self }
    }

    /// The session without the program at the head of the queue.
    pub open spec fn dequeued(self) -> GameModel {
        GameModel { queue: self.queue.drop_first(), ..self }
    }

    /// What starting the next waiting program does: nothing where none
    /// waits; else the program at the head of the queue leaves the queue and
    /// is started by its name with its arguments.
    pub open spec fn start_next(self) -> Option<Result<(GameModel, Seq<OutputModel>), FsError>> {
        if self.queue.len() == 0 {
            None
        } else {
            Some(self.dequeued().start(self.queue[0].0, self.queue[0].1))
        }
    }

    /// The session as it is begun: the first computer of the given identity
    /// is the active one, or the active one stays where there is none, and
    /// `clear` and then the shell wait to be started.
    pub open spec fn begun(self, initial: ComputerId) -> GameModel {
        GameModel {
            current: match id_index(self.computers, initial, 0) {
                Some(i) => i,
                None => self.current,
            },
            ..self
        }.queued("clear"@, Seq::empty()).queued("cmd"@, Seq::empty())
    }

    /// What running a program does: the session afterwards and what is
    /// shown. A program that is given arguments that it does not take hands
    /// the call to `help`. The programs that only show something leave the
    /// session as it is; `cd` and `logout` change the active computer; the
    /// shell and `ssh` to a known host become running programs that wait
    /// for input.
    pub open spec fn run(self, exe: Builtin, args: Seq<Seq<char>>) -> (GameModel, Seq<OutputModel>)
        decreases
            (if usage_error(exe, args.len()) {
                1nat
            } else {
                0nat
            }),
            0nat,
    {
        let c = self.current_computer();
        if usage_error(exe, args.len()) {
            match self.start("help"@, seq![usage_topic(exe)]) {
                Ok(r) => r,
                Err(_) => (self, Seq::empty()),
            }
        } else {
            match exe {
                Builtin::Ls => (self, text_output(ls_text(c, args))),
                Builtin::Cd => (self.with_current(cd_spec(c, args).0), text_output(cd_spec(c, args).1)),
                Builtin::Cat => (self, text_output(cat_text(c, args))),
                Builtin::Which => (self, text_output(which_text(c, args))),
                Builtin::Help => (self, text_output(help_text(c, args))),
                Builtin::Logout => (self.with_current(logout_spec(c)), Seq::empty()),
                Builtin::Clear => (self, seq![OutputModel::Clear]),
                Builtin::Ssh => match address_index(self.computers, args[0]) {
                    Some(target) => (self.pushed(FrameModel::SshUsername { target }), Seq::empty()),
                    None => (self, text_output("Host does not exist.\n"@)),
                },
                Builtin::Cmd => (self.pushed(FrameModel::Shell), Seq::empty()),
            }
        }
    }

    /// What starting a program by name does: the name is sought in the
    /// search path of the active computer; what is found is run, and where
    /// nothing is found the call fails with `NotExecutable`.
    pub open spec fn start(self, name: Seq<char>, args: Seq<Seq<char>>) -> Result<
        (GameModel, Seq<OutputModel>),
        FsError,
    >
        decreases
            (if args.len() != 1 {
                1nat
            } else {
                0nat
            }),
            2nat,
    {
        match self.current_computer().which_node(name) {
            Some(n) => self.start_node(n, args),
            None => Err(FsError::NotExecutable),
        }
    }

    /// What starting the program of an entry does: an executable is run,
    /// anything else fails with `NotExecutable`.
    pub open spec fn start_node(self, n: NodeModel, args: Seq<Seq<char>>) -> Result<
        (GameModel, Seq<OutputModel>),
        FsError,
    >
        decreases
            (if args.len() != 1 {
                1nat
            } else {
                0nat
            }),
            1nat,
    {
        match n.content {
            ContentModel::Executable(exe) => Ok(self.run(exe, args)),
            _ => Err(FsError::NotExecutable),
        }
    }

    /// The session with every shell ended that has nothing more to do: a
    /// shell that is innermost ends when the active computer's session is
    /// marked to end.
    pub open spec fn settle(self) -> GameModel
        decreases self.frames.len(),
    {
        if self.frames.len() > 0 && self.frames.last() is Shell
            && self.current_computer().should_quit {
            self.popped().settle()
        } else {
            self
        }
    }

    /// What the session needs next: nothing where no program is running, a
    /// command line for the shell, name and password for `ssh`, and the
    /// notice of the switch to be sent once the login is granted.
    pub open spec fn request(self) -> RequestModel {
        let s = self.settle();
        if s.frames.len() == 0 {
            RequestModel::Idle
        } else {
            match s.frames.last() {
                FrameModel::Shell => RequestModel::ReadLine {
                    prompt: prompt_text(s.current_computer()),
                    hidden: false,
                    commands: true,
                },
                FrameModel::SshUsername { .. } => RequestModel::ReadLine {
                    prompt: "Username: "@,
                    hidden: false,
                    commands: false,
                },
                FrameModel::SshPassword { .. } => RequestModel::ReadLine {
                    prompt: "Password: "@,
                    hidden: true,
                    commands: false,
                },
                FrameModel::SshSwitch { target } => RequestModel::Send(
                    Message::SwitchComputer(
                        SwitchComputerMessage { new_id: s.computers[target as int].id },
                    ),
                ),
            }
        }
    }

    /// What a line does that was read for the innermost program. The shell
    /// ends at the line `exit`; any other line is split into tokens, and
    /// the first token is started as a program with the others as its
    /// arguments, or reported as not found. `ssh` takes the line as the
    /// name and then as the password, and gives up with a message where
    /// they are not right. A line that nothing waits for is dropped.
    pub open spec fn feed_line(self, line: Seq<char>) -> (GameModel, Seq<OutputModel>) {
        let s = self.settle();
        if s.frames.len() == 0 {
            (s, Seq::empty())
        } else {
            match s.frames.last() {
                FrameModel::Shell => if line == "exit"@ {
                    (s.popped(), Seq::empty())
                } else if tokens(line).len() == 0 {
                    (s, Seq::empty())
                } else {
                    match s.start(tokens(line)[0], tokens(line).skip(1)) {
                        Ok(r) => r,
                        Err(_) => (
                            s,
                            text_output(
                                "Could not find process \""@ + tokens(line)[0]
                                    + "\"\nType \"help\" to list all processes.\n"@,
                            ),
                        ),
                    }
                },
                FrameModel::SshUsername { target } => (
                    s.popped().pushed(FrameModel::SshPassword { target, username: line }),
                    Seq::empty(),
                ),
                FrameModel::SshPassword { target, username } => match login_spec(
                    s.computers[target as int],
                    username,
                    line,
                ) {
                    Login::UnknownUser => (
                        s.popped(),
                        text_output("Incorrect username or password\n"@),
                    ),
                    Login::WrongPassword => (s.popped(), text_output("Incorrect password.\n"@)),
                    Login::Granted => (
                        s.popped().pushed(FrameModel::SshSwitch { target }),
                        Seq::empty(),
                    ),
                },
                FrameModel::SshSwitch { .. } => (s, Seq::empty()),
            }
        }
    }

    /// What the answer to a request to send does. Once the controller has
    /// been told, the session of the active computer is marked to end, the
    /// target becomes the active computer, and a shell is put in the queue.
    /// Where the message could not be sent, `ssh` ends and nothing changes.
    /// An answer that nothing waits for is dropped.
    pub open spec fn feed_sent(self, sent: bool) -> (GameModel, Seq<OutputModel>) {
        let s = self.settle();
        if s.frames.len() > 0 && s.frames.last() is SshSwitch {
            let target = s.frames.last()->SshSwitch_target;
            let p = s.popped();
            if sent {
                (
                    GameModel {
                        current: target,
                        ..p.with_current(logout_spec(p.current_computer()))
                    }.queued("cmd"@, Seq::empty()),
                    text_output("Successfully connected\n"@),
                )
            } else {
                (p, Seq::empty())
            }
        } else {
            (s, Seq::empty())
        }
    }
}

/// Running a program keeps a session well formed.
pub proof fn lemma_run_keeps_wf(g: GameModel, exe: Builtin, args: Seq<Seq<char>>)
    requires
        g.wf(),
    ensures
        g.run(exe, args).0.wf(),
    decreases
        (if usage_error(exe, args.len()) {
            1nat
        } else {
            0nat
        }),
{
    if usage_error(exe, args.len()) {
        let topic = seq![usage_topic(exe)];
        match g.current_computer().which_node("help"@) {
            Some(n) => match n.content {
                ContentModel::Executable(e) => {
                    lemma_run_keeps_wf(g, e, topic);
                },
                _ => {},
            },
            None => {},
        }
    } else {
        if exe == Builtin::Ssh {
            lemma_address_index(g.computers, args[0]);
        }
    }
}

/// Ending the shells that have nothing more to do keeps a session well
/// formed and changes nothing but the running programs.
pub proof fn lemma_settle(g: GameModel)
    requires
        g.wf(),
    ensures
        g.settle().wf(),
        g.settle().computers == g.computers,
        g.settle().current == g.current,
        g.settle().queue == g.queue,
        g.settle().frames.len() <= g.frames.len(),
        g.settle().frames == g.frames.take(g.settle().frames.len() as int),
        g.settle().settle() == g.settle(),
    decreases g.frames.len(),
{
    if g.frames.len() > 0 && g.frames.last() is Shell && g.current_computer().should_quit {
        let p = g.popped();
        assert forall|i: int| 0 <= i < p.frames.len() implies match (#[trigger] p.frames[i]).target() {
            Some(t) => t < p.computers.len(),
            None => true,
        } by {
            assert(p.frames[i] == g.frames[i]);
        }
        lemma_settle(p);
        assert(g.settle().frames =~= g.frames.take(g.settle().frames.len() as int));
    } else {
        assert(g.frames =~= g.frames.take(g.frames.len() as int));
    }
}

/// The computers as mathematical values, one for one.
pub open spec fn computer_models(s: Seq<Computer>) -> Seq<ComputerModel> {
    Seq::new(s.len(), |i: int| s[i]@)
}

/// The running programs as mathematical values, one for one.
pub open spec fn frame_models(s: Seq<Frame>) -> Seq<FrameModel> {
    Seq::new(s.len(), |i: int| s[i]@)
}

/// The waiting programs as mathematical values, one for one.
pub open spec fn queue_models(s: Seq<(String, Vec<String>)>) -> Seq<(Seq<char>, Seq<Seq<char>>)> {
    Seq::new(s.len(), |i: int| (s[i].0@, views(s[i].1@)))
}

/// The session of a game: the computers, the active one among them, a
/// table from address to computer, the programs that wait to be started and
/// the programs that are running.
pub struct Game {
    computers: Vec<Computer>,
    current_computer_index: usize,
    computer_address_map: StringHashMap<usize>,
    process_queue: VecDeque<(String, Vec<String>)>,
    frames: Vec<Frame>,
}

impl View for Game {
    type V = GameModel;

    closed spec fn view(&self) -> GameModel {
        GameModel {
            computers: computer_models(self.computers@),
            current: self.current_computer_index as nat,
            queue: queue_models(self.process_queue@),
            frames: frame_models(self.frames@),
        }
    }
}

/// The text as what a program shows.
fn to_output(t: String) -> (r: Vec<Output>)
    ensures
        output_models(r@) == text_output(t@),
{
    let mut out: Vec<Output> = Vec::new();
    if !t.as_str().is_empty() {
        out.push(Output::Text(t));
    }
    assert(output_models(out@) =~= text_output(t@));
    out
}

/// Nothing to show.
fn no_output() -> (r: Vec<Output>)
    ensures
        output_models(r@) == Seq::<OutputModel>::empty(),
{
    let out: Vec<Output> = Vec::new();
    assert(output_models(out@) =~= Seq::<OutputModel>::empty());
    out
}

impl Game {
    /// Whether the table of addresses agrees with the computers.
    pub closed spec fn table_ok(&self) -> bool {
        &&& forall|a: Seq<char>| #[trigger]
            self.computer_address_map@.contains_key(a) ==> address_index(self@.computers, a)
                == Some(self.computer_address_map@[a] as nat)
        &&& forall|a: Seq<char>|
            (#[trigger] address_index(self@.computers, a)) is Some
                ==> self.computer_address_map@.contains_key(a)
    }

    /// What must hold of a session: what must hold of its mathematical
    /// value, and the table of addresses agrees with the computers.
    pub closed spec fn wf(&self) -> bool {
        self@.wf() && self.table_ok()
    }

    /// A well-formed session has a well-formed mathematical value.
    pub proof fn lemma_wf(&self)
        requires
            self.wf(),
        ensures
            self@.wf(),
    {
    }

    /// A session with these computers, the first of them active, in which
    /// nothing is running or waiting.
    fn assemble(computers: Vec<Computer>) -> (g: Game)
        requires
            computers@.len() > 0,
            forall|i: int|
                0 <= i < computers@.len() ==> (#[trigger] computers@[i]).has_current_user(),
        ensures
            g.wf(),
            g@ == (GameModel {
                computers: computer_models(computers@),
                current: 0,
                queue: Seq::empty(),
                frames: Seq::empty(),
            }),
    {
        let ghost ms = computer_models(computers@);
        let mut table: StringHashMap<usize> = StringHashMap::new();
        let mut i: usize = 0;
        proof {
            assert(ms.take(0) =~= Seq::<ComputerModel>::empty());
        }
        while i < computers.len()
            invariant
                i <= computers.len(),
                ms == computer_models(computers@),
                forall|a: Seq<char>| #[trigger]
                    table@.contains_key(a) ==> address_index(ms.take(i as int), a) == Some(
                        table@[a] as nat,
                    ),
                forall|a: Seq<char>|
                    (#[trigger] address_index(ms.take(i as int), a)) is Some ==> table@.contains_key(
                        a,
                    ),
            decreases computers.len() - i,
        {
            let ghost before = table@;
            let ghost addr = computers@[i as int].address@;
            proof {
                assert(ms.take(i + 1).drop_last() =~= ms.take(i as int));
                assert(ms.take(i + 1).last().address == addr);
            }
            table.insert(computers[i].address.clone(), i);
            assert forall|a: Seq<char>| #[trigger] table@.contains_key(a) implies address_index(
                ms.take(i + 1),
                a,
            ) == Some(table@[a] as nat) by {
                if a != addr {
                    assert(before.contains_key(a));
                }
            }
            assert forall|a: Seq<char>|
                (#[trigger] address_index(ms.take(i + 1), a)) is Some implies table@.contains_key(
                a,
            ) by {
                if a != addr {
                    assert(address_index(ms.take(i as int), a) is Some);
                }
            }
            i = i + 1;
        }
        proof {
            assert(ms.take(computers@.len() as int) =~= ms);
        }
        let g = Game {
            computers,
            current_computer_index: 0,
            computer_address_map: table,
            process_queue: VecDeque::new(),
            frames: Vec::new(),
        };
        proof {
            assert(g@.queue =~= Seq::<(Seq<char>, Seq<Seq<char>>)>::empty());
            assert(g@.frames =~= Seq::<FrameModel>::empty());
        }
        g
    }

    /// A session with these computers, the first of them active, in which
    /// nothing is running or waiting. There is none without computers or
    /// where a computer has no user who is logged in.
    pub fn with_computers(computers: Vec<Computer>) -> (r: Option<Game>)
        ensures
            match r {
                Some(g) => g.wf() && g@ == (GameModel {
                    computers: computer_models(computers@),
                    current: 0,
                    queue: Seq::empty(),
                    frames: Seq::empty(),
                }),
                None => computers@.len() == 0 || exists|i: int|
                    0 <= i < computers@.len() && !(#[trigger] computers@[i]).has_current_user(),
            },
    {
        if computers.len() == 0 {
            return None;
        }
        let mut i: usize = 0;
        while i < computers.len()
            invariant
                i <= computers.len(),
                forall|k: int| 0 <= k < i ==> (#[trigger] computers@[k]).has_current_user(),
            decreases computers.len() - i,
        {
            if !computers[i].has_user() {
                return None;
            }
            i = i + 1;
        }
        Some(Game::assemble(computers))
    }

    /// The place of the active computer.
    pub fn current_computer_index(&self) -> (r: usize)
        ensures
            r == self@.current,
    {
        self.current_computer_index
    }

    /// The active computer.
    pub fn current_computer(&self) -> (r: &Computer)
        requires
            self.wf(),
        ensures
            r@ == self@.current_computer(),
    {
        &self.computers[self.current_computer_index]
    }

    /// All computers.
    pub fn computers(&self) -> (r: &Vec<Computer>)
        ensures
            computer_models(r@) == self@.computers,
    {
        &self.computers
    }

    /// Puts a program at the end of the queue.
    pub fn queue_process(&mut self, name: &str, args: Vec<String>)
        requires
            old(self).wf(),
        ensures
            final(self).wf(),
            final(self)@ == old(self)@.queued(name@, views(args@)),
    {
        self.process_queue.push_back((String::from_str(name), args));
        proof {
            assert(self@.queue =~= old(self)@.queue.push((name@, views(args@))));
        }
    }

    /// Takes the program at the head of the queue.
    pub fn get_queued_process(&mut self) -> (r: Option<(String, Vec<String>)>)
        requires
            old(self).wf(),
        ensures
            final(self).wf(),
            match r {
                Some(p) => old(self)@.queue.len() > 0 && (p.0@, views(p.1@)) == old(self)@.queue[0]
                    && final(self)@ == (GameModel {
                    queue: old(self)@.queue.drop_first(),
                    ..old(self)@
                }),
                None => old(self)@.queue.len() == 0 && final(self)@ == old(self)@,
            },
    {
        let r = self.process_queue.pop_front();
        proof {
            if r is Some {
                assert(self@.queue =~= old(self)@.queue.drop_first());
            } else {
                assert(self@.queue =~= old(self)@.queue);
            }
        }
        r
    }

    /// The computer with this address.
    pub fn find_computer_by_address(&self, addr: &str) -> (r: Option<&Computer>)
        requires
            self.wf(),
        ensures
            match r {
                Some(c) => address_index(self@.computers, addr@) is Some && c@
                    == self@.computers[address_index(self@.computers, addr@)->0 as int],
                None => address_index(self@.computers, addr@) is None,
            },
    {
        proof {
            lemma_address_index(self@.computers, addr@);
        }
        match self.computer_address_map.get(addr) {
            Some(i) => Some(&self.computers[*i]),
            None => None,
        }
    }

    /// Makes the computer with this address the active one and says
    /// whether there is such a computer; where there is none, nothing
    /// changes.
    pub fn change_computers_by_address(&mut self, addr: &str) -> (r: bool)
        requires
            old(self).wf(),
        ensures
            final(self).wf(),
            match address_index(old(self)@.computers, addr@) {
                Some(i) => r && final(self)@ == (GameModel { current: i, ..old(self)@ }),
                None => !r && final(self)@ == old(self)@,
            },
    {
        proof {
            lemma_address_index(self@.computers, addr@);
        }
        match self.computer_address_map.get(addr) {
            Some(i) => {
                self.current_computer_index = *i;
                true
            },
            None => false,
        }
    }

    /// Makes the first computer with this identity the active one and says
    /// whether there is such a computer; where there is none, nothing
    /// changes.
    pub fn change_computers_by_id(&mut self, id: ComputerId) -> (r: bool)
        requires
            old(self).wf(),
        ensures
            final(self).wf(),
            match id_index(old(self)@.computers, id, 0) {
                Some(i) => r && final(self)@ == (GameModel { current: i, ..old(self)@ }),
                None => !r && final(self)@ == old(self)@,
            },
    {
        let mut i: usize = 0;
        while i < self.computers.len()
            invariant
                i <= self.computers.len(),
                self.wf(),
                *self == *old(self),
                id_index(self@.computers, id, 0) == id_index(self@.computers, id, i as nat),
            decreases self.computers.len() - i,
        {
            if self.computers[i].id == id {
                self.current_computer_index = i;
                return true;
            }
            i = i + 1;
        }
        false
    }

    /// Ends every shell that has nothing more to do.
    fn settle(&mut self)
        requires
            old(self).wf(),
        ensures
            final(self).wf(),
            final(self)@ == old(self)@.settle(),
    {
        proof {
            lemma_settle(self@);
        }
        loop
            invariant
                self.wf(),
                self@.settle() == old(self)@.settle(),
            decreases self.frames@.len(),
        {
            let n = self.frames.len();
            if n == 0 {
                return ;
            }
            let is_shell = match &self.frames[n - 1] {
                Frame::Shell => true,
                _ => false,
            };
            if !is_shell || !self.computers[self.current_computer_index].should_quit {
                return ;
            }
            let ghost before = self@;
            let _ = self.frames.pop();
            proof {
                assert(self@.frames =~= before.frames.drop_last());
                assert(self@ == before.popped());
                lemma_settle(before);
                lemma_popped_wf(before);
            }
        }
    }

    /// What the session needs next from whoever drives it.
    pub fn pending(&mut self) -> (r: Request)
        requires
            old(self).wf(),
        ensures
            final(self).wf(),
            final(self)@ == old(self)@.settle(),
            r@ == old(self)@.request(),
    {
        self.settle();
        let n = self.frames.len();
        if n == 0 {
            return Request::Idle;
        }
        match &self.frames[n - 1] {
            Frame::Shell => Request::ReadLine {
                prompt: prompt(&self.computers[self.current_computer_index]),
                hidden: false,
                commands: true,
            },
            Frame::SshUsername { .. } => Request::ReadLine {
                prompt: String::from_str("Username: "),
                hidden: false,
                commands: false,
            },
            Frame::SshPassword { .. } => Request::ReadLine {
                prompt: String::from_str("Password: "),
                hidden: true,
                commands: false,
            },
            Frame::SshSwitch { target } => Request::Send(
                Message::SwitchComputer(SwitchComputerMessage { new_id: self.computers[*target].id }),
            ),
        }
    }

    /// Runs a program with these arguments and returns what it shows.
    pub fn run(&mut self, exe: Builtin, args: Vec<String>) -> (r: Vec<Output>)
        requires
            old(self).wf(),
        ensures
            final(self).wf(),
            final(self)@ == old(self)@.run(exe, views(args@)).0,
            output_models(r@) == old(self)@.run(exe, views(args@)).1,
        decreases
            (if usage_error(exe, args@.len()) {
                1nat
            } else {
                0nat
            }),
            0nat,
    {
        let n = args.len();
        let idx = self.current_computer_index;
        let ghost g = self@;
        let ghost a = views(args@);
        proof {
            lemma_run_keeps_wf(g, exe, a);
        }
        match exe {
            Builtin::Ls => {
                if n > 1 {
                    self.ask_help("ls")
                } else {
                    to_output(list(&self.computers[idx], &args))
                }
            },
            Builtin::Ssh => {
                if n != 1 {
                    self.ask_help("ssh")
                } else {
                    proof {
                        lemma_address_index(g.computers, a[0]);
                    }
                    let found = match self.computer_address_map.get(args[0].as_str()) {
                        Some(t) => Some(*t),
                        None => None,
                    };
                    match found {
                        Some(target) => {
                            self.frames.push(Frame::SshUsername { target });
                            proof {
                                assert(self@.frames =~= g.frames.push(
                                    FrameModel::SshUsername { target: target as nat },
                                ));
                            }
                            no_output()
                        },
                        None => to_output(String::from_str("Host does not exist.\n")),
                    }
                }
            },
            Builtin::Cd => {
                let t = change_directory(&mut self.computers[idx], &args);
                proof {
                    self.lemma_current_changed(*old(self));
                }
                to_output(t)
            },
            Builtin::Cat => to_output(concatenate(&self.computers[idx], &args)),
            Builtin::Which => to_output(which(&self.computers[idx], &args)),
            Builtin::Help => to_output(help(&self.computers[idx], &args)),
            Builtin::Logout => {
                end_session(&mut self.computers[idx]);
                proof {
                    self.lemma_current_changed(*old(self));
                }
                no_output()
            },
            Builtin::Clear => {
                let mut out: Vec<Output> = Vec::new();
                out.push(Output::Clear);
                assert(output_models(out@) =~= seq![OutputModel::Clear]);
                out
            },
            Builtin::Cmd => {
                self.frames.push(Frame::Shell);
                proof {
                    assert(self@.frames =~= g.frames.push(FrameModel::Shell));
                }
                no_output()
            },
        }
    }

    /// Hands a call with the wrong number of arguments to `help`.
    fn ask_help(&mut self, topic: &str) -> (r: Vec<Output>)
        requires
            old(self).wf(),
        ensures
            final(self).wf(),
            match old(self)@.start("help"@, seq![topic@]) {
                Ok(res) => final(self)@ == res.0 && output_models(r@) == res.1,
                Err(_) => final(self)@ == old(self)@ && output_models(r@) == Seq::<
                    OutputModel,
                >::empty(),
            },
        decreases 0nat, 3nat,
    {
        let mut a: Vec<String> = Vec::new();
        a.push(String::from_str(topic));
        assert(views(a@) =~= seq![topic@]);
        match self.start_exe_from_path("help", a) {
            Ok(o) => o,
            Err(_) => no_output(),
        }
    }

    /// Starts the program that is found under `name` in the search path of
    /// the active computer. Where none is found, the call fails with
    /// `NotExecutable` and nothing changes.
    pub fn start_exe_from_path(&mut self, name: &str, args: Vec<String>) -> (r: Result<
        Vec<Output>,
        FsError,
    >)
        requires
            old(self).wf(),
        ensures
            final(self).wf(),
            match old(self)@.start(name@, views(args@)) {
                Ok(res) => r is Ok && final(self)@ == res.0 && output_models(r->Ok_0@) == res.1,
                Err(e) => r == Err::<Vec<Output>, FsError>(e) && final(self)@ == old(self)@,
            },
        decreases
            (if args@.len() != 1 {
                1nat
            } else {
                0nat
            }),
            2nat,
    {
        let found = match self.computers[self.current_computer_index].which_node(name) {
            Some(node) => node.as_exe(),
            None => None,
        };
        match found {
            Some(exe) => Ok(self.run(exe, args)),
            None => Err(FsError::NotExecutable),
        }
    }

    /// Starts the program that an entry stands for. An entry that is no
    /// executable is refused with `NotExecutable` and nothing changes.
    pub fn start_exe(&mut self, node: &Node, args: Vec<String>) -> (r: Result<Vec<Output>, FsError>)
        requires
            old(self).wf(),
        ensures
            final(self).wf(),
            match old(self)@.start_node(node@, views(args@)) {
                Ok(res) => r is Ok && final(self)@ == res.0 && output_models(r->Ok_0@) == res.1,
                Err(e) => r == Err::<Vec<Output>, FsError>(e) && final(self)@ == old(self)@,
            },
    {
        match node.as_exe() {
            Some(exe) => Ok(self.run(exe, args)),
            None => Err(FsError::NotExecutable),
        }
    }

    /// Starts the program at the head of the queue and returns what it
    /// shows, or why it cannot be started. There is no result where nothing
    /// waits; a program that cannot be started has left the queue all the
    /// same.
    pub fn start_next(&mut self) -> (r: Option<Result<Vec<Output>, FsError>>)
        requires
            old(self).wf(),
        ensures
            final(self).wf(),
            match (old(self)@.start_next(), r) {
                (None, None) => final(self)@ == old(self)@,
                (Some(Ok(res)), Some(Ok(out))) => final(self)@ == res.0 && output_models(out@)
                    == res.1,
                (Some(Err(e)), Some(Err(f))) => e == f && final(self)@ == old(self)@.dequeued(),
                _ => false,
            },
    {
        match self.get_queued_process() {
            Some(p) => Some(self.start_exe_from_path(p.0.as_str(), p.1)),
            None => None,
        }
    }

    /// Begins the session: makes the first computer of the given identity
    /// the active one, where there is one, and puts `clear` and then the
    /// shell in the queue.
    pub fn begin(&mut self, initial: ComputerId)
        requires
            old(self).wf(),
        ensures
            final(self).wf(),
            final(self)@ == old(self)@.begun(initial),
    {
        let _ = self.change_computers_by_id(initial);
        self.queue_process("clear", Vec::new());
        self.queue_process("cmd", Vec::new());
        proof {
            assert(views(Seq::<String>::empty()) =~= Seq::<Seq<char>>::empty());
        }
    }

    /// Takes a line that was read for the innermost running program and
    /// returns what is shown.
    pub fn feed_line(&mut self, line: &str) -> (r: Vec<Output>)
        requires
            old(self).wf(),
        ensures
            final(self).wf(),
            final(self)@ == old(self)@.feed_line(line@).0,
            output_models(r@) == old(self)@.feed_line(line@).1,
    {
        self.settle();
        let ghost s = self@;
        proof {
            if s.frames.len() > 0 {
                lemma_popped_wf(s);
            }
        }
        match self.frames.pop() {
            None => no_output(),
            Some(Frame::Shell) => {
                proof {
                    assert(self@.frames =~= s.frames.drop_last());
                }
                if line.eq("exit") {
                    no_output()
                } else {
                    self.frames.push(Frame::Shell);
                    proof {
                        assert(self@.frames =~= s.frames);
                        assert(self@ == s);
                    }
                    let mut toks = parse_command(line);
                    if toks.len() == 0 {
                        no_output()
                    } else {
                        let ghost all = views(toks@);
                        let name = toks.remove(0);
                        proof {
                            assert(views(toks@) =~= all.skip(1));
                        }
                        match self.start_exe_from_path(name.as_str(), toks) {
                            Ok(o) => o,
                            Err(_) => {
                                let mut t = String::from_str("Could not find process \"");
                                t.append(name.as_str());
                                t.append("\"\nType \"help\" to list all processes.\n");
                                to_output(t)
                            },
                        }
                    }
                }
            },
            Some(Frame::SshUsername { target }) => {
                self.frames.push(Frame::SshPassword { target, username: String::from_str(line) });
                proof {
                    assert(self@.frames =~= s.frames.drop_last().push(
                        FrameModel::SshPassword { target: target as nat, username: line@ },
                    ));
                    lemma_pushed_wf(s.popped(), self@.frames.last());
                }
                no_output()
            },
            Some(Frame::SshPassword { target, username }) => {
                proof {
                    assert(self@.frames =~= s.frames.drop_last());
                    assert(s.frames[s.frames.len() - 1].target() == Some(target as nat));
                }
                match check_login(&self.computers[target], username.as_str(), line) {
                    Login::UnknownUser => to_output(
                        String::from_str("Incorrect username or password\n"),
                    ),
                    Login::WrongPassword => to_output(String::from_str("Incorrect password.\n")),
                    Login::Granted => {
                        self.frames.push(Frame::SshSwitch { target });
                        proof {
                            assert(self@.frames =~= s.frames.drop_last().push(
                                FrameModel::SshSwitch { target: target as nat },
                            ));
                            lemma_pushed_wf(s.popped(), self@.frames.last());
                        }
                        no_output()
                    },
                }
            },
            Some(Frame::SshSwitch { target }) => {
                self.frames.push(Frame::SshSwitch { target });
                proof {
                    assert(self@.frames =~= s.frames);
                }
                no_output()
            },
        }
    }

    /// Takes the answer to a request to send a message, `sent` telling
    /// whether the message went out, and returns what is shown.
    pub fn feed_sent(&mut self, sent: bool) -> (r: Vec<Output>)
        requires
            old(self).wf(),
        ensures
            final(self).wf(),
            final(self)@ == old(self)@.feed_sent(sent).0,
            output_models(r@) == old(self)@.feed_sent(sent).1,
    {
        self.settle();
        let ghost s = self@;
        let n = self.frames.len();
        if n == 0 {
            return no_output();
        }
        let target = match &self.frames[n - 1] {
            Frame::SshSwitch { target } => Some(*target),
            _ => None,
        };
        match target {
            None => no_output(),
            Some(t) => {
                proof {
                    lemma_popped_wf(s);
                    assert(s.frames[n - 1].target() == Some(t as nat));
                }
                let _ = self.frames.pop();
                proof {
                    assert(self@.frames =~= s.frames.drop_last());
                    assert(self@ == s.popped());
                }
                if sent {
                    let ghost p = *self;
                    let idx = self.current_computer_index;
                    proof {
                        assert(s.computers[idx as int].has_current_user());
                        assert(p@.computers[idx as int] == p.computers@[idx as int]@);
                    }
                    end_session(&mut self.computers[idx]);
                    proof {
                        self.lemma_current_changed(p);
                    }
                    self.current_computer_index = t;
                    self.process_queue.push_back((String::from_str("cmd"), Vec::new()));
                    proof {
                        assert(views(Seq::<String>::empty()) =~= Seq::<Seq<char>>::empty());
                        assert(self@.queue =~= s.queue.push(("cmd"@, Seq::<Seq<char>>::empty())));
                    }
                    to_output(String::from_str("Successfully connected\n"))
                } else {
                    no_output()
                }
            },
        }
    }

    /// After a change to the active computer that keeps its address and its
    /// users, the session is the one before with that computer replaced,
    /// and is still well formed.
    proof fn lemma_current_changed(&self, before: Game)
        requires
            before.wf(),
            self.current_computer_index == before.current_computer_index,
            self.computer_address_map == before.computer_address_map,
            self.process_queue == before.process_queue,
            self.frames == before.frames,
            self.computers@.len() == before.computers@.len(),
            forall|i: int|
                0 <= i < self.computers@.len() && i != self.current_computer_index
                    ==> self.computers@[i] == before.computers@[i],
            self.computers@[self.current_computer_index as int]@.address
                == before.computers@[self.current_computer_index as int]@.address,
            self.computers@[self.current_computer_index as int]@.has_current_user(),
        ensures
            self.wf(),
            self@ == before@.with_current(self.computers@[self.current_computer_index as int]@),
    {
        let idx = self.current_computer_index as int;
        assert(self@.computers =~= before@.computers.update(idx, self.computers@[idx]@));
        assert forall|a: Seq<char>|
            address_index(self@.computers, a) == address_index(before@.computers, a) by {
            lemma_address_index_same(self@.computers, before@.computers, a);
        }
        assert forall|i: int| 0 <= i < self@.computers.len() implies (#[trigger] self@.computers[
            i
        ]).has_current_user() by {
            if i != idx {
                assert(self@.computers[i] == before@.computers[i]);
            }
        }
    }
}

/// Without its innermost running program a session is still well formed.
pub proof fn lemma_popped_wf(g: GameModel)
    requires
        g.wf(),
        g.frames.len() > 0,
    ensures
        g.popped().wf(),
{
    let p = g.popped();
    assert forall|i: int| 0 <= i < p.frames.len() implies match (#[trigger] p.frames[i]).target() {
        Some(t) => t < p.computers.len(),
        None => true,
    } by {
        assert(p.frames[i] == g.frames[i]);
    }
}

/// With one more running program about an existing computer a session is
/// still well formed.
pub proof fn lemma_pushed_wf(g: GameModel, f: FrameModel)
    requires
        g.wf(),
        match f.target() {
            Some(t) => t < g.computers.len(),
            None => true,
        },
    ensures
        g.pushed(f).wf(),
{
    let p = g.pushed(f);
    assert forall|i: int| 0 <= i < p.frames.len() implies match (#[trigger] p.frames[i]).target() {
        Some(t) => t < p.computers.len(),
        None => true,
    } by {
        if i < g.frames.len() {
            assert(p.frames[i] == g.frames[i]);
        }
    }
}


/// A password that is not the user's, or a name that nobody has, ends `ssh`
/// and leaves everything else as it is: no message is asked to be sent, no
/// computer changes, the active computer stays, and nothing is put in the
/// queue.
pub proof fn lemma_ssh_refused(g: GameModel, password: Seq<char>)
    requires
        g.wf(),
        g.frames.len() > 0,
        g.frames.last() is SshPassword,
        login_spec(
            g.computers[g.frames.last()->SshPassword_target as int],
            g.frames.last()->SshPassword_username,
            password,
        ) != Login::Granted,
    ensures
        g.feed_line(password).0 == g.popped(),
        g.feed_line(password).1.len() == 1,
{
    reveal_strlit("Incorrect username or password\n");
    reveal_strlit("Incorrect password.\n");
}

/// The right password makes `ssh` ask for exactly one message to be sent,
/// the notice of the switch to the target, before anything changes. Once
/// the message is sent, the computer that was active has its session marked
/// to end, the target is the active computer, and one shell is put at the
/// end of the queue. Where the message cannot be sent, `ssh` ends and
/// nothing has changed.
pub proof fn lemma_ssh_granted(g: GameModel, password: Seq<char>)
    requires
        g.wf(),
        g.frames.len() > 0,
        g.frames.last() is SshPassword,
        login_spec(
            g.computers[g.frames.last()->SshPassword_target as int],
            g.frames.last()->SshPassword_username,
            password,
        ) == Login::Granted,
    ensures
        ({
            let target = g.frames.last()->SshPassword_target;
            let asked = g.feed_line(password).0;
            let done = asked.feed_sent(true).0;
            let failed = asked.feed_sent(false).0;
            &&& g.feed_line(password).1.len() == 0
            &&& asked.computers == g.computers
            &&& asked.current == g.current
            &&& asked.queue == g.queue
            &&& asked.request() == RequestModel::Send(
                Message::SwitchComputer(
                    SwitchComputerMessage { new_id: g.computers[target as int].id },
                ),
            )
            &&& done.computers == g.computers.update(
                g.current as int,
                logout_spec(g.current_computer()),
            )
            &&& done.current == target
            &&& done.queue == g.queue.push(("cmd"@, Seq::empty()))
            &&& done.frames == g.frames.drop_last()
            &&& failed == g.popped()
        }),
{
    let target = g.frames.last()->SshPassword_target;
    let asked = g.feed_line(password).0;
    assert(g.settle() == g);
    assert(asked == g.popped().pushed(FrameModel::SshSwitch { target }));
    assert(asked.settle() == asked);
    assert(asked.popped().frames =~= g.frames.drop_last());
    assert(asked.popped() == g.popped());
}

/// Starting a program by name fails exactly where the search path of the
/// active computer leads to no executable of that name; the error is then
/// `NotExecutable`.
pub proof fn lemma_start_fails_when_not_found(g: GameModel, name: Seq<char>, args: Seq<Seq<char>>)
    ensures
        g.start(name, args) is Err <==> !(g.current_computer().which_node(name) is Some
            && g.current_computer().which_node(name)->0.content is Executable),
        g.start(name, args) is Err ==> g.start(name, args)->Err_0 == FsError::NotExecutable,
{
}


} // verus!
