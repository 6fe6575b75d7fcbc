//! The priorities with which the benchmark runs.
use vstd::prelude::*;

use crate::text::is_str;

verus! {

/// The priority class of the process.
#[derive(Debug, Clone, Copy, PartialEq, Eq, Structural)]
pub enum ProcessPriority {
    Idle,
    BelowNormal,
    Normal,
    AboveNormal,
    High,
}

/// The priority of a thread that reads frames.
#[derive(Debug, Clone, Copy, PartialEq, Eq, Structural)]
pub enum ThreadPriority {
    Idle,
    Lowest,
    BelowNormal,
    Normal,
    AboveNormal,
    Highest,
}

impl ProcessPriority {
    /// The word for a priority.
    pub open spec fn word(self) -> Seq<char> {
        match self {
            ProcessPriority::Idle => "idle"@,
            ProcessPriority::BelowNormal => "below-normal"@,
            ProcessPriority::Normal => "normal"@,
            ProcessPriority::AboveNormal => "above-normal"@,
            ProcessPriority::High => "high"@,
        }
    }

    /// The word for a priority.
    pub fn as_str(self) -> (res: &'static str)
        ensures
            res@ == self.word(),
    {
        match self {
            ProcessPriority::Idle => "idle",
            ProcessPriority::BelowNormal => "below-normal",
            ProcessPriority::Normal => "normal",
            ProcessPriority::AboveNormal => "above-normal",
            ProcessPriority::High => "high",
        }
    }

    /// The number by which Windows knows a priority class.
    pub open spec fn windows_class(self) -> u32 {
        match self {
            ProcessPriority::Idle => 64,
            ProcessPriority::BelowNormal => 16384,
            ProcessPriority::Normal => 32,
            ProcessPriority::AboveNormal => 32768,
            ProcessPriority::High => 128,
        }
    }

    /// The number by which Windows knows a priority class.
    pub fn as_windows_class(self) -> (res: u32)
        ensures
            res == self.windows_class(),
    {
        match self {
            ProcessPriority::Idle => 64,
            ProcessPriority::BelowNormal => 16384,
            ProcessPriority::Normal => 32,
            ProcessPriority::AboveNormal => 32768,
            ProcessPriority::High => 128,
        }
    }

    /// The priority for a word.
    pub open spec fn of_word(text: Seq<char>) -> Option<ProcessPriority> {
        if text == "idle"@ {
            Some(ProcessPriority::Idle)
        } else if text == "below-normal"@ {
            Some(ProcessPriority::BelowNormal)
        } else if text == "normal"@ {
            Some(ProcessPriority::Normal)
        } else if text == "above-normal"@ {
            Some(ProcessPriority::AboveNormal)
        } else if text == "high"@ {
            Some(ProcessPriority::High)
        } else {
            None
        }
    }

    /// The priority for a word.
    pub fn from_word(text: &Vec<char>) -> (res: Option<ProcessPriority>)
        ensures
            res == ProcessPriority::of_word(text@),
    {
        if is_str(text, "idle") {
            Some(ProcessPriority::Idle)
        } else if is_str(text, "below-normal") {
            Some(ProcessPriority::BelowNormal)
        } else if is_str(text, "normal") {
            Some(ProcessPriority::Normal)
        } else if is_str(text, "above-normal") {
            Some(ProcessPriority::AboveNormal)
        } else if is_str(text, "high") {
            Some(ProcessPriority::High)
        } else {
            None
        }
    }
}

impl ThreadPriority {
    /// The word for a priority.
    pub open spec fn word(self) -> Seq<char> {
        match self {
            ThreadPriority::Idle => "idle"@,
            ThreadPriority::Lowest => "lowest"@,
            ThreadPriority::BelowNormal => "below-normal"@,
            ThreadPriority::Normal => "normal"@,
            ThreadPriority::AboveNormal => "above-normal"@,
            ThreadPriority::Highest => "highest"@,
        }
    }

    /// The word for a priority.
    pub fn as_str(self) -> (res: &'static str)
        ensures
            res@ == self.word(),
    {
        match self {
            ThreadPriority::Idle => "idle",
            ThreadPriority::Lowest => "lowest",
            ThreadPriority::BelowNormal => "below-normal",
            ThreadPriority::Normal => "normal",
            ThreadPriority::AboveNormal => "above-normal",
            ThreadPriority::Highest => "highest",
        }
    }

    /// The number by which Windows knows a thread priority.
    pub open spec fn windows_priority(self) -> int {
        match self {
            ThreadPriority::Idle => -15,
            ThreadPriority::Lowest => -2,
            ThreadPriority::BelowNormal => -1,
            ThreadPriority::Normal => 0,
            ThreadPriority::AboveNormal => 1,
            ThreadPriority::Highest => 2,
        }
    }

    /// The number by which Windows knows a thread priority.
    pub fn as_windows_priority(self) -> (res: i32)
        ensures
            res == self.windows_priority(),
    {
        match self {
            ThreadPriority::Idle => -15,
            ThreadPriority::Lowest => -2,
            ThreadPriority::BelowNormal => -1,
            ThreadPriority::Normal => 0,
            ThreadPriority::AboveNormal => 1,
            ThreadPriority::Highest => 2,
        }
    }

    /// The priority for a word.
    pub open spec fn of_word(text: Seq<char>) -> Option<ThreadPriority> {
        if text == "idle"@ {
            Some(ThreadPriority::Idle)
        } else if text == "lowest"@ {
            Some(ThreadPriority::Lowest)
        } else if text == "below-normal"@ {
            Some(ThreadPriority::BelowNormal)
        } else if text == "normal"@ {
            Some(ThreadPriority::Normal)
        } else if text == "above-normal"@ {
            Some(ThreadPriority::AboveNormal)
        } else if text == "highest"@ {
            Some(ThreadPriority::Highest)
        } else {
            None
        }
    }

    /// The priority for a word.
    pub fn from_word(text: &Vec<char>) -> (res: Option<ThreadPriority>)
        ensures
            res == ThreadPriority::of_word(text@),
    {
        if is_str(text, "idle") {
            Some(ThreadPriority::Idle)
        } else if is_str(text, "lowest") {
            Some(ThreadPriority::Lowest)
        } else if is_str(text, "below-normal") {
            Some(ThreadPriority::BelowNormal)
        } else if is_str(text, "normal") {
            Some(ThreadPriority::Normal)
        } else if is_str(text, "above-normal") {
            Some(ThreadPriority::AboveNormal)
        } else if is_str(text, "highest") {
            Some(ThreadPriority::Highest)
        } else {
            None
        }
    }
}

/// The word for a process priority leads back to it, and its number tells it
/// from the others.
pub proof fn process_priority_words(a: ProcessPriority, b: ProcessPriority)
    ensures
        ProcessPriority::of_word(a.word()) == Some(a),
        a.windows_class() == b.windows_class() ==> a == b,
{
    reveal_strlit("idle");
    reveal_strlit("below-normal");
    reveal_strlit("normal");
    reveal_strlit("above-normal");
    reveal_strlit("high");
    assert("idle"@[0] == 'i' && "high"@[0] == 'h');
    assert("below-normal"@[0] == 'b' && "above-normal"@[0] == 'a');
}

/// The word for a thread priority leads back to it, and its number tells it
/// from the others.
pub proof fn thread_priority_words(a: ThreadPriority, b: ThreadPriority)
    ensures
        ThreadPriority::of_word(a.word()) == Some(a),
        a.windows_priority() == b.windows_priority() ==> a == b,
{
    reveal_strlit("idle");
    reveal_strlit("lowest");
    reveal_strlit("below-normal");
    reveal_strlit("normal");
    reveal_strlit("above-normal");
    reveal_strlit("highest");
    assert("below-normal"@[0] == 'b' && "above-normal"@[0] == 'a');
    assert("lowest"@[0] == 'l' && "normal"@[0] == 'n');
    assert("idle"@.len() == 4 && "highest"@.len() == 7);
    assert("lowest"@.len() == 6 && "below-normal"@.len() == 12);
}

} // verus!
