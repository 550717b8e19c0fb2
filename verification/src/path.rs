use vstd::prelude::*;
use vstd::string::StringExecFns;

verus! {

/// One step from a node of a tool declaration to a part of it.
#[derive(Clone, Copy, Debug, PartialEq, Eq, Structural)]
pub enum Segment {
    /// The tool's name.
    Name,
    /// The tool's version.
    Version,
    /// The tool's author.
    Author,
    /// The top-level command with this index.
    Commands(usize),
    /// The argument with this index of the command reached so far.
    Arguments(usize),
    /// The nested command with this index of the command reached so far.
    Subcommands(usize),
}

/// What a `Segment` says, with its index as a mathematical number.
pub enum Step {
    Name,
    Version,
    Author,
    Commands(nat),
    Arguments(nat),
    Subcommands(nat),
}

impl View for Segment {
    type V = Step;

    open spec fn view(&self) -> Step {
        match *self {
            Segment::Name => Step::Name,
            Segment::Version => Step::Version,
            Segment::Author => Step::Author,
            Segment::Commands(i) => Step::Commands(i as nat),
            Segment::Arguments(i) => Step::Arguments(i as nat),
            Segment::Subcommands(i) => Step::Subcommands(i as nat),
        }
    }
}

/// The location of a node in a tool declaration: the steps that lead to it from the root.
#[derive(Debug)]
pub struct Path {
    pub segments: Vec<Segment>,
}

/// The steps that a list of segments stands for, in order.
pub open spec fn steps(segments: Seq<Segment>) -> Seq<Step> {
    Seq::new(segments.len(), |i: int| segments[i]@)
}

impl View for Path {
    type V = Seq<Step>;

    open spec fn view(&self) -> Seq<Step> {
        steps(self.segments@)
    }
}

/// The character that stands for a decimal digit.
pub open spec fn digit_char(digit: int) -> char {
    if digit == 0 {
        '0'
    } else if digit == 1 {
        '1'
    } else if digit == 2 {
        '2'
    } else if digit == 3 {
        '3'
    } else if digit == 4 {
        '4'
    } else if digit == 5 {
        '5'
    } else if digit == 6 {
        '6'
    } else if digit == 7 {
        '7'
    } else if digit == 8 {
        '8'
    } else {
        '9'
    }
}

/// A number in decimal notation, without leading zeros.
pub open spec fn decimal(n: nat) -> Seq<char>
    decreases n,
{
    if n < 10 {
        seq![digit_char(n as int)]
    } else {
        decimal(n / 10).push(digit_char((n % 10) as int))
    }
}

/// How one step is written in a dotted path.
pub open spec fn step_text(step: Step) -> Seq<char> {
    match step {
        Step::Name => "name"@,
        Step::Version => "version"@,
        Step::Author => "author"@,
        Step::Commands(i) => "commands["@ + decimal(i) + "]"@,
        Step::Arguments(i) => "arguments["@ + decimal(i) + "]"@,
        Step::Subcommands(i) => "subcommands["@ + decimal(i) + "]"@,
    }
}

/// A location in dotted notation, such as `commands[1].arguments[0]`.
pub open spec fn path_text(path: Seq<Step>) -> Seq<char>
    decreases path.len(),
{
    if path.len() == 0 {
        Seq::empty()
    } else if path.len() == 1 {
        step_text(path[0])
    } else {
        path_text(path.drop_last()) + "."@ + step_text(path.last())
    }
}

fn digit_text(digit: usize) -> (text: &'static str)
    requires
        digit < 10,
    ensures
        text@ == seq![digit_char(digit as int)],
{
    proof {
        reveal_strlit("0");
        reveal_strlit("1");
        reveal_strlit("2");
        reveal_strlit("3");
        reveal_strlit("4");
        reveal_strlit("5");
        reveal_strlit("6");
        reveal_strlit("7");
        reveal_strlit("8");
        reveal_strlit("9");
    }
    let text = if digit == 0 {
        "0"
    } else if digit == 1 {
        "1"
    } else if digit == 2 {
        "2"
    } else if digit == 3 {
        "3"
    } else if digit == 4 {
        "4"
    } else if digit == 5 {
        "5"
    } else if digit == 6 {
        "6"
    } else if digit == 7 {
        "7"
    } else if digit == 8 {
        "8"
    } else {
        "9"
    };
    assert(text@ =~= seq![digit_char(digit as int)]);
    text
}

/// Appends `n` in decimal notation to `out`.
pub fn append_decimal(out: &mut String, n: usize)
    ensures
        final(out)@ == old(out)@ + decimal(n as nat),
    decreases n,
{
    if n >= 10 {
        append_decimal(out, n / 10);
    }
    out.append(digit_text(n % 10));
    assert(out@ =~= old(out)@ + decimal(n as nat));
}

/// Appends one step, as a dotted path writes it, to `out`.
pub fn append_segment(out: &mut String, segment: Segment)
    ensures
        final(out)@ == old(out)@ + step_text(segment@),
{
    match segment {
        Segment::Name => {
            out.append("name");
        },
        Segment::Version => {
            out.append("version");
        },
        Segment::Author => {
            out.append("author");
        },
        Segment::Commands(i) => {
            out.append("commands[");
            append_decimal(out, i);
            out.append("]");
        },
        Segment::Arguments(i) => {
            out.append("arguments[");
            append_decimal(out, i);
            out.append("]");
        },
        Segment::Subcommands(i) => {
            out.append("subcommands[");
            append_decimal(out, i);
            out.append("]");
        },
    }
    assert(out@ =~= old(out)@ + step_text(segment@));
}

impl Path {
    /// The location of the tool declaration itself.
    pub fn root() -> (path: Path)
        ensures
            path@ == Seq::<Step>::empty(),
    {
        let path = Path { segments: Vec::new() };
        assert(path@ =~= Seq::<Step>::empty());
        path
    }

    /// The location one step below this one.
    pub fn child(&self, segment: Segment) -> (path: Path)
        ensures
            path@ == self@.push(segment@),
    {
        let mut segments: Vec<Segment> = Vec::new();
        let mut i: usize = 0;
        while i < self.segments.len()
            invariant
                i <= self.segments.len(),
                segments@ == self.segments@.subrange(0, i as int),
            decreases self.segments.len() - i,
        {
            segments.push(self.segments[i]);
            i = i + 1;
            assert(segments@ =~= self.segments@.subrange(0, i as int));
        }
        assert(self.segments@.subrange(0, i as int) =~= self.segments@);
        segments.push(segment);
        let path = Path { segments };
        assert(path@ =~= self@.push(segment@));
        path
    }

    /// A copy of this location.
    pub fn duplicate(&self) -> (path: Path)
        ensures
            path@ == self@,
    {
        let mut segments: Vec<Segment> = Vec::new();
        let mut i: usize = 0;
        while i < self.segments.len()
            invariant
                i <= self.segments.len(),
                segments@ == self.segments@.subrange(0, i as int),
            decreases self.segments.len() - i,
        {
            segments.push(self.segments[i]);
            i = i + 1;
            assert(segments@ =~= self.segments@.subrange(0, i as int));
        }
        assert(self.segments@.subrange(0, i as int) =~= self.segments@);
        Path { segments }
    }

    /// The location in dotted notation.
    pub fn render(&self) -> (text: String)
        ensures
            text@ == path_text(self@),
    {
        let mut text = String::new();
        let mut i: usize = 0;
        while i < self.segments.len()
            invariant
                i <= self.segments.len(),
                text@ == path_text(steps(self.segments@.subrange(0, i as int))),
            decreases self.segments.len() - i,
        {
            let ghost before = steps(self.segments@.subrange(0, i as int));
            let ghost after = steps(self.segments@.subrange(0, i + 1));
            if i > 0 {
                text.append(".");
            }
            append_segment(&mut text, self.segments[i]);
            proof {
                assert(after.drop_last() =~= before);
                assert(after.last() == self.segments@[i as int]@);
                if i == 0 {
                    assert(text@ =~= step_text(self.segments@[0]@));
                } else {
                    assert(text@ =~= path_text(before) + "."@ + step_text(after.last()));
                }
            }
            i = i + 1;
        }
        assert(self.segments@.subrange(0, i as int) =~= self.segments@);
        text
    }
}

} // verus!
