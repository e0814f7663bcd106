//! The commands for a plant, in the order in which they were written.
use vstd::prelude::*;

verus! {

/// Commands that wait for the next tick. A queue is open until its plant ends.
pub struct CommandQueue {
    waiting: Vec<(String, u64)>,
    open: bool,
}

/// What a [`CommandQueue`] holds.
pub ghost struct QueueView {
    pub waiting: Seq<(Seq<char>, u64)>,
    pub open: bool,
}

impl QueueView {
    /// The queue after a command was written. A queue that is closed takes none.
    pub open spec fn written(self, name: Seq<char>, value: u64) -> QueueView {
        if self.open {
            QueueView { waiting: self.waiting.push((name, value)), ..self }
        } else {
            self
        }
    }

    pub open spec fn drained(self) -> QueueView {
        QueueView { waiting: Seq::empty(), ..self }
    }
}

/// Commands as text and numbers.
pub open spec fn commands_of(commands: Seq<(String, u64)>) -> Seq<(Seq<char>, u64)> {
    Seq::new(commands.len(), |i: int| (commands[i].0@, commands[i].1))
}

impl CommandQueue {
    pub closed spec fn view(&self) -> QueueView {
        QueueView { waiting: commands_of(self.waiting@), open: self.open }
    }

    /// An open queue in which nothing waits.
    pub fn new() -> (queue: CommandQueue)
        ensures
            queue@ == (QueueView { waiting: Seq::empty(), open: true }),
    {
        let queue = CommandQueue { waiting: Vec::new(), open: true };
        assert(commands_of(queue.waiting@) =~= Seq::empty());
        queue
    }

    /// Adds a command. Where the plant has ended the command is dropped in silence.
    pub fn write(&mut self, name: &str, value: u64)
        ensures
            final(self)@ == old(self)@.written(name@, value),
    {
        if self.open {
            self.waiting.push((name.to_owned(), value));
            assert(commands_of(self.waiting@) =~= old(self)@.waiting.push((name@, value)));
        }
    }

    /// Takes everything that waits, the oldest first.
    pub fn drain(&mut self) -> (commands: Vec<(String, u64)>)
        ensures
            commands_of(commands@) == old(self)@.waiting,
            final(self)@ == old(self)@.drained(),
    {
        let mut commands: Vec<(String, u64)> = Vec::new();
        commands.append(&mut self.waiting);
        assert(commands_of(commands@) =~= old(self)@.waiting);
        assert(commands_of(self.waiting@) =~= Seq::empty());
        commands
    }

    /// Ends the queue together with its plant. What still waits is dropped.
    pub fn close(&mut self)
        ensures
            final(self)@ == (QueueView { waiting: Seq::empty(), open: false }),
    {
        self.waiting = Vec::new();
        self.open = false;
        assert(commands_of(self.waiting@) =~= Seq::empty());
    }
}

/// A queue after these commands were written.
pub open spec fn all_written(queue: QueueView, commands: Seq<(Seq<char>, u64)>) -> QueueView
    decreases commands.len(),
{
    if commands.len() == 0 {
        queue
    } else {
        all_written(queue, commands.drop_last()).written(commands.last().0, commands.last().1)
    }
}

/// What was written to an open queue since it was last drained comes out whole and in order.
pub proof fn commands_come_out_in_order(queue: QueueView, commands: Seq<(Seq<char>, u64)>)
    requires
        queue.open,
    ensures
        all_written(queue.drained(), commands).waiting == commands,
        all_written(queue.drained(), commands).open,
    decreases commands.len(),
{
    if commands.len() > 0 {
        commands_come_out_in_order(queue, commands.drop_last());
        assert(commands.drop_last().push(commands.last()) =~= commands);
    } else {
        assert(commands =~= Seq::empty());
    }
}

} // verus!
