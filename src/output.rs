//! What to send to the input-injection tool for an expansion: backspaces,
//! the text, then left-arrow presses, with the tool's command lines.

use vstd::prelude::*;

use crate::expander::ExpansionResult;
use crate::text::string_of;

verus! {

/// The pause after deleting the trigger and before moving the cursor, in milliseconds.
pub const SETTLE_MS: u64 = 10;

/// The decimal digit of a number below ten.
pub open spec fn digit_char(d: nat) -> char {
    if d == 0 {
        '0'
    } else if d == 1 {
        '1'
    } else if d == 2 {
        '2'
    } else if d == 3 {
        '3'
    } else if d == 4 {
        '4'
    } else if d == 5 {
        '5'
    } else if d == 6 {
        '6'
    } else if d == 7 {
        '7'
    } else if d == 8 {
        '8'
    } else {
        '9'
    }
}

/// The decimal form of `n`, without leading zeros.
pub open spec fn decimal(n: nat) -> Seq<char>
    decreases n,
{
    if n < 10 {
        seq![digit_char(n)]
    } else {
        decimal(n / 10).push(digit_char(n % 10))
    }
}

fn digit_char_exec(d: u64) -> (c: char)
    requires
        d < 10,
    ensures
        c == digit_char(d as nat),
{
    if d == 0 {
        '0'
    } else if d == 1 {
        '1'
    } else if d == 2 {
        '2'
    } else if d == 3 {
        '3'
    } else if d == 4 {
        '4'
    } else if d == 5 {
        '5'
    } else if d == 6 {
        '6'
    } else if d == 7 {
        '7'
    } else if d == 8 {
        '8'
    } else {
        '9'
    }
}

fn decimal_chars(n: u64) -> (r: Vec<char>)
    ensures
        r@ == decimal(n as nat),
    decreases n,
{
    if n < 10 {
        let mut v: Vec<char> = Vec::new();
        v.push(digit_char_exec(n));
        assert(v@ =~= seq![digit_char(n as nat)]);
        v
    } else {
        let mut v = decimal_chars(n / 10);
        v.push(digit_char_exec(n % 10));
        v
    }
}

/// The decimal form of `n`.
pub fn decimal_text(n: u64) -> (r: String)
    ensures
        r@ == decimal(n as nat),
{
    string_of(&decimal_chars(n))
}

/// One step of the output of an expansion.
#[derive(Debug, Clone, PartialEq, Eq)]
pub enum OutputStep {
    /// Press Backspace this many times.
    Backspaces(usize),
    /// Wait this many milliseconds.
    Pause(u64),
    /// Type this text.
    TypeText(String),
    /// Press the left arrow this many times.
    CursorLeft(usize),
}

/// A step, in terms of values.
pub enum StepSpec {
    Backspaces(nat),
    Pause(nat),
    TypeText(Seq<char>),
    CursorLeft(nat),
}

impl View for OutputStep {
    type V = StepSpec;

    open spec fn view(&self) -> StepSpec {
        match self {
            OutputStep::Backspaces(n) => StepSpec::Backspaces(*n as nat),
            OutputStep::Pause(ms) => StepSpec::Pause(*ms as nat),
            OutputStep::TypeText(t) => StepSpec::TypeText(t@),
            OutputStep::CursorLeft(n) => StepSpec::CursorLeft(*n as nat),
        }
    }
}

/// The steps for an expansion: where there is something to delete, the
/// backspaces and a pause; the text, where there is some; where the cursor
/// moves back, a pause and the left-arrow presses.
pub open spec fn plan_spec(e: ExpansionResult) -> Seq<StepSpec> {
    let del = if e.delete_count > 0 {
        seq![StepSpec::Backspaces(e.delete_count as nat), StepSpec::Pause(SETTLE_MS as nat)]
    } else {
        Seq::empty()
    };
    let typ = if e.text@.len() > 0 {
        seq![StepSpec::TypeText(e.text@)]
    } else {
        Seq::empty()
    };
    let mv = match e.cursor_offset {
        Some(k) => if k > 0 {
            seq![StepSpec::Pause(SETTLE_MS as nat), StepSpec::CursorLeft(k as nat)]
        } else {
            Seq::empty()
        },
        None => Seq::empty(),
    };
    del + typ + mv
}

pub open spec fn steps_view(v: Seq<OutputStep>) -> Seq<StepSpec> {
    Seq::new(v.len(), |i: int| v[i]@)
}

/// Drives the input-injection tool, one command per step.
#[derive(Debug)]
pub struct OutputEngine {
    /// Delay between keystrokes, in milliseconds.
    pub keystroke_delay: u64,
    /// Socket of the tool's daemon, where not the default one.
    pub socket_path: Option<String>,
}

fn push_step(v: &mut Vec<OutputStep>, s: OutputStep)
    ensures
        steps_view(final(v)@) == steps_view(old(v)@).push(s@),
{
    v.push(s);
    assert(steps_view(v@) =~= steps_view(old(v)@).push(s@));
}

impl OutputEngine {
    pub fn new(keystroke_delay: u64, socket_path: Option<String>) -> (r: OutputEngine)
        ensures
            r.keystroke_delay == keystroke_delay,
            r.socket_path == socket_path,
    {
        OutputEngine { keystroke_delay, socket_path }
    }

    /// The steps for an expansion, in order.
    pub fn output_plan(&self, expansion: &ExpansionResult) -> (r: Vec<OutputStep>)
        ensures
            steps_view(r@) == plan_spec(*expansion),
    {
        let mut steps: Vec<OutputStep> = Vec::new();
        if expansion.delete_count > 0 {
            push_step(&mut steps, OutputStep::Backspaces(expansion.delete_count));
            push_step(&mut steps, OutputStep::Pause(SETTLE_MS));
        }
        if !expansion.text.as_str().is_empty() {
            push_step(&mut steps, OutputStep::TypeText(expansion.text.clone()));
        }
        match expansion.cursor_offset {
            Some(k) => {
                if k > 0 {
                    push_step(&mut steps, OutputStep::Pause(SETTLE_MS));
                    push_step(&mut steps, OutputStep::CursorLeft(k));
                }
            },
            None => {},
        }
        assert(steps_view(steps@) =~= plan_spec(*expansion));
        steps
    }

    /// The tool's arguments for a step; a pause has none.
    pub fn step_args(&self, step: &OutputStep) -> (r: Option<Vec<String>>)
        ensures
            match step@ {
                StepSpec::Backspaces(n) => r matches Some(a) && a@.len() == 4 && a@[0]@ == "key"@
                    && a@[1]@ == "--repeat"@ && a@[2]@ == decimal(n) && a@[3]@ == "BackSpace"@,
                StepSpec::CursorLeft(n) => r matches Some(a) && a@.len() == 4 && a@[0]@ == "key"@
                    && a@[1]@ == "--repeat"@ && a@[2]@ == decimal(n) && a@[3]@ == "Left"@,
                StepSpec::TypeText(t) => r matches Some(a) && a@.len() == 5 && a@[0]@ == "type"@
                    && a@[1]@ == "--key-delay"@ && a@[2]@ == decimal(self.keystroke_delay as nat)
                    && a@[3]@ == "--"@ && a@[4]@ == t,
                StepSpec::Pause(_) => r is None,
            },
    {
        match step {
            OutputStep::Backspaces(n) => Some(
                vec![
                    "key".to_owned(),
                    "--repeat".to_owned(),
                    decimal_text(*n as u64),
                    "BackSpace".to_owned(),
                ],
            ),
            OutputStep::CursorLeft(n) => Some(
                vec![
                    "key".to_owned(),
                    "--repeat".to_owned(),
                    decimal_text(*n as u64),
                    "Left".to_owned(),
                ],
            ),
            OutputStep::TypeText(t) => Some(
                vec![
                    "type".to_owned(),
                    "--key-delay".to_owned(),
                    decimal_text(self.keystroke_delay),
                    "--".to_owned(),
                    t.clone(),
                ],
            ),
            OutputStep::Pause(_) => None,
        }
    }
}

/// Types text through the tool's standard input.
#[derive(Debug)]
pub struct PipeOutputEngine {
    /// Delay between keystrokes, in milliseconds.
    pub keystroke_delay: u64,
    /// Socket of the tool's daemon, where not the default one.
    pub socket_path: Option<String>,
}

impl PipeOutputEngine {
    pub fn new(keystroke_delay: u64, socket_path: Option<String>) -> (r: PipeOutputEngine)
        ensures
            r.keystroke_delay == keystroke_delay,
            r.socket_path == socket_path,
    {
        PipeOutputEngine { keystroke_delay, socket_path }
    }

    /// The tool's arguments for typing what arrives on its standard input.
    pub fn pipe_args(&self) -> (r: Vec<String>)
        ensures
            r@.len() == 5,
            r@[0]@ == "type"@,
            r@[1]@ == "--delay"@,
            r@[2]@ == decimal(self.keystroke_delay as nat),
            r@[3]@ == "--file"@,
            r@[4]@ == "-"@,
    {
        vec![
            "type".to_owned(),
            "--delay".to_owned(),
            decimal_text(self.keystroke_delay),
            "--file".to_owned(),
            "-".to_owned(),
        ]
    }
}

} // verus!
