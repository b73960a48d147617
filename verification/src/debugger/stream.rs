//! Debugger stream: the lines the debugger writes, kept or sent to the console.
use vstd::prelude::*;

verus! {

/// Debugger stream line.
pub struct DebuggerStreamLine {
    /// Error.
    pub error: bool,
    /// Content.
    pub content: String,
}

/// Debugger stream.
pub struct DebuggerStream {
    lines: Vec<DebuggerStreamLine>,
    use_console: bool,
}

/// A kept line, as its error flag and its text.
pub open spec fn line_view(l: DebuggerStreamLine) -> (bool, Seq<char>) {
    (l.error, l.content@)
}

impl DebuggerStream {
    /// Kept lines, oldest first.
    pub closed spec fn kept(&self) -> Seq<(bool, Seq<char>)> {
        self.lines@.map_values(|l: DebuggerStreamLine| line_view(l))
    }

    /// Whether lines go to the console.
    pub closed spec fn console(&self) -> bool {
        self.use_console
    }

    /// Creates a stream that keeps its lines.
    pub fn new() -> (res: Self)
        ensures
            res.kept() == Seq::<(bool, Seq<char>)>::empty(),
            !res.console(),
    {
        let res = DebuggerStream { lines: Vec::new(), use_console: false };
        assert(res.kept() =~= Seq::<(bool, Seq<char>)>::empty());
        res
    }

    /// Sends the lines to the console, or keeps them.
    pub fn set_use_console(&mut self, v: bool)
        ensures
            final(self).console() == v,
            final(self).kept() == old(self).kept(),
    {
        self.use_console = v;
    }

    fn write_line(&mut self, error: bool, s: &str) -> (to_console: bool)
        ensures
            to_console == old(self).console(),
            final(self).console() == old(self).console(),
            final(self).kept() == if old(self).console() {
                old(self).kept()
            } else {
                old(self).kept().push((error, s@))
            },
    {
        if self.use_console {
            true
        } else {
            let ghost before = self.lines@;
            self.lines.push(DebuggerStreamLine { error, content: s.to_owned() });
            assert(self.lines@.map_values(|l: DebuggerStreamLine| line_view(l)) =~= before.map_values(
                |l: DebuggerStreamLine| line_view(l),
            ).push((error, s@)));
            false
        }
    }

    /// Writes an output line: kept, or, when the stream uses the console,
    /// left to the caller to print (the result is then `true`).
    pub fn writeln_stdout(&mut self, s: &str) -> (to_console: bool)
        ensures
            to_console == old(self).console(),
            final(self).console() == old(self).console(),
            final(self).kept() == if old(self).console() {
                old(self).kept()
            } else {
                old(self).kept().push((false, s@))
            },
    {
        self.write_line(false, s)
    }

    /// Writes an error line: kept, or, when the stream uses the console,
    /// left to the caller to print on the error output (the result is then `true`).
    pub fn writeln_stderr(&mut self, s: &str) -> (to_console: bool)
        ensures
            to_console == old(self).console(),
            final(self).console() == old(self).console(),
            final(self).kept() == if old(self).console() {
                old(self).kept()
            } else {
                old(self).kept().push((true, s@))
            },
    {
        self.write_line(true, s)
    }

    /// Kept lines.
    pub fn get_lines(&self) -> (res: &[DebuggerStreamLine])
        ensures
            res@.map_values(|l: DebuggerStreamLine| line_view(l)) == self.kept(),
    {
        self.lines.as_slice()
    }
}

} // verus!
