use vstd::prelude::*;
use vstd::string::StringSliceAdditionalSpecFns;
use crate::packet::same_bytes;

verus! {

/// A line of interactive input, as the session acts on it.
pub enum Command {
    /// Show the registered players.
    List,
    /// Show the command words.
    Help,
    /// Show the cached server status and save its icon.
    Status,
    /// Leave the session.
    Quit,
    /// Send the line as a chat message.
    Chat(String),
}

/// Reads a command line: `list`, `help`, `status` and `quit` are command words, any
/// other line is a chat message.
pub fn parse_command(line: &str) -> (r: Command)
    ensures
        line.spec_bytes() == "list".spec_bytes() ==> r is List,
        line.spec_bytes() != "list".spec_bytes() && line.spec_bytes() == "help".spec_bytes() ==> r is Help,
        line.spec_bytes() != "list".spec_bytes() && line.spec_bytes() != "help".spec_bytes()
            && line.spec_bytes() == "status".spec_bytes() ==> r is Status,
        line.spec_bytes() != "list".spec_bytes() && line.spec_bytes() != "help".spec_bytes()
            && line.spec_bytes() != "status".spec_bytes() && line.spec_bytes() == "quit".spec_bytes()
            ==> r is Quit,
        line.spec_bytes() != "list".spec_bytes() && line.spec_bytes() != "help".spec_bytes()
            && line.spec_bytes() != "status".spec_bytes() && line.spec_bytes()
            != "quit".spec_bytes() ==> (r matches Command::Chat(t) && t@ == line@),
{
    let b = line.as_bytes();
    if same_bytes(b, "list".as_bytes()) {
        Command::List
    } else if same_bytes(b, "help".as_bytes()) {
        Command::Help
    } else if same_bytes(b, "status".as_bytes()) {
        Command::Status
    } else if same_bytes(b, "quit".as_bytes()) {
        Command::Quit
    } else {
        Command::Chat(line.to_owned())
    }
}

/// Whether every queued line holds some text.
pub open spec fn lines_nonempty(q: Seq<Seq<char>>) -> bool {
    forall|i: int| 0 <= i < q.len() ==> #[trigger] q[i].len() > 0
}

/// Lines waiting for the session, in the order they were typed; the input side trims
/// each line and queues only those with text left.
pub struct CommandQueue {
    lines: Vec<String>,
}

impl View for CommandQueue {
    type V = Seq<Seq<char>>;

    closed spec fn view(&self) -> Seq<Seq<char>> {
        self.lines@.map_values(|l: String| l@)
    }
}

impl CommandQueue {
    /// An empty queue.
    pub fn new() -> (r: CommandQueue)
        ensures
            r@ == Seq::<Seq<char>>::empty(),
            lines_nonempty(r@),
    {
        let r = CommandQueue { lines: Vec::new() };
        assert(r@ =~= Seq::<Seq<char>>::empty());
        r
    }

    /// Queues `line` behind the lines already waiting.
    pub fn push(&mut self, line: String)
        requires
            line@.len() > 0,
            lines_nonempty(old(self)@),
        ensures
            final(self)@ == old(self)@.push(line@),
            lines_nonempty(final(self)@),
    {
        let ghost l = line@;
        self.lines.push(line);
        assert(self@ =~= old(self)@.push(l));
        assert(self@[self@.len() - 1] == l);
    }

    /// Takes every queued line, in push order, and leaves the queue empty.
    pub fn drain(&mut self) -> (r: Vec<String>)
        ensures
            r@.map_values(|l: String| l@) == old(self)@,
            final(self)@ == Seq::<Seq<char>>::empty(),
            lines_nonempty(final(self)@),
    {
        let mut r: Vec<String> = Vec::new();
        std::mem::swap(&mut r, &mut self.lines);
        assert(self@ =~= Seq::<Seq<char>>::empty());
        r
    }
}

} // verus!
