//! How deep the values of a TOML text can nest, found by one pass over its
//! bytes, without parsing it.
//!
//! The pass follows the text the way a TOML reader does: it knows when it
//! is inside a string or a comment, where nothing nests, and outside of
//! them it keeps the depth of the place it has reached. Every bracket or
//! brace that opens a value, and every dot that joins the parts of a key,
//! is one level; a level ends where its value ends. The keys of a table
//! header are levels for all that follows the header. Dots in numbers and
//! marks inside strings and comments are no levels.

use vstd::prelude::*;

verus! {

/// How deep a text may nest at most.
pub const MAX_NESTING: usize = 128;

/// Where in the text the pass is, as far as strings and comments go.
#[derive(Debug, Clone, Copy, PartialEq, Eq, Structural)]
pub enum Mode {
    /// Outside of strings and comments.
    Plain,
    /// In a comment, which runs to the end of the line.
    Comment,
    /// After the quote that opens a string. `basic` strings are in double
    /// quotes and know the backslash; the others are in single quotes.
    Opened { basic: bool },
    /// After two quotes: an empty string, unless a third quote follows.
    Empty { basic: bool },
    /// In a string that ends with its line.
    Line { basic: bool },
    /// After a backslash in such a string.
    LineEscape,
    /// In a string of several lines, after `quotes` quotes in a row.
    Block { basic: bool, quotes: u8 },
    /// After a backslash in such a string.
    BlockEscape,
    /// After the three quotes that close a string of several lines, and
    /// `extra` more quotes that still belong to it.
    Closed { basic: bool, extra: u8 },
}

/// An array or an inline table that is open.
#[derive(Debug, Clone, Copy, PartialEq, Eq, Structural)]
pub struct Frame {
    /// Whether it is an inline table.
    pub table: bool,
    /// How many dots the key of its current entry has.
    pub dots: usize,
}

/// The state of the pass.
pub struct Scan {
    pub mode: Mode,
    /// Whether nothing of a statement has been seen on this line.
    pub fresh: bool,
    /// Whether the statement is a table header.
    pub header: bool,
    /// Whether a key is being read, not a value.
    pub key: bool,
    /// The arrays and inline tables that are open, the innermost last.
    pub stack: Seq<Frame>,
    /// The levels of the last table header.
    pub base: usize,
    /// The depth of the place reached.
    pub depth: usize,
    /// Whether the depth has been above [`MAX_NESTING`]. From then on the
    /// state stays as it is.
    pub over: bool,
}

/// The quote of a kind of string.
pub open spec fn quote(basic: bool) -> u8 {
    if basic {
        0x22
    } else {
        0x27
    }
}

/// One more, as long as the limit has not been passed.
pub open spec fn bump(n: usize) -> usize {
    if n <= MAX_NESTING {
        (n + 1) as usize
    } else {
        n
    }
}

/// `n` less `k`, and nothing where `k` is the greater.
pub open spec fn less(n: usize, k: usize) -> usize {
    if n >= k {
        (n - k) as usize
    } else {
        0
    }
}

/// What a byte outside of strings and comments leads to: the mode after
/// it, and whether the byte belongs to the structure of the text.
pub open spec fn lex_plain(byte: u8) -> (Mode, bool) {
    if byte == 0x22 {
        (Mode::Opened { basic: true }, true)
    } else if byte == 0x27 {
        (Mode::Opened { basic: false }, true)
    } else if byte == 0x23 {
        (Mode::Comment, false)
    } else {
        (Mode::Plain, true)
    }
}

/// What a byte in a string of one line leads to. The end of the line ends
/// the string whatever came before.
pub open spec fn lex_line(basic: bool, byte: u8) -> (Mode, bool) {
    if byte == 0x0a {
        (Mode::Plain, true)
    } else if byte == quote(basic) {
        (Mode::Plain, false)
    } else if basic && byte == 0x5c {
        (Mode::LineEscape, false)
    } else {
        (Mode::Line { basic }, false)
    }
}

/// What a byte leads to: the mode after it, and whether the byte belongs to
/// the structure of the text.
pub open spec fn lex(mode: Mode, byte: u8) -> (Mode, bool) {
    match mode {
        Mode::Plain => lex_plain(byte),
        Mode::Comment => if byte == 0x0a {
            (Mode::Plain, true)
        } else {
            (Mode::Comment, false)
        },
        Mode::Opened { basic } => if byte == quote(basic) {
            (Mode::Empty { basic }, false)
        } else {
            lex_line(basic, byte)
        },
        Mode::Empty { basic } => if byte == quote(basic) {
            (Mode::Block { basic, quotes: 0 }, false)
        } else {
            lex_plain(byte)
        },
        Mode::Line { basic } => lex_line(basic, byte),
        Mode::LineEscape => if byte == 0x0a {
            (Mode::Plain, true)
        } else {
            (Mode::Line { basic: true }, false)
        },
        Mode::Block { basic, quotes } => if byte == quote(basic) {
            if quotes >= 2 {
                (Mode::Closed { basic, extra: 0 }, false)
            } else {
                (Mode::Block { basic, quotes: (quotes + 1) as u8 }, false)
            }
        } else if basic && byte == 0x5c {
            (Mode::BlockEscape, false)
        } else {
            (Mode::Block { basic, quotes: 0 }, false)
        },
        Mode::BlockEscape => (Mode::Block { basic: true, quotes: 0 }, false),
        Mode::Closed { basic, extra } => if byte == quote(basic) && extra < 2 {
            (Mode::Closed { basic, extra: (extra + 1) as u8 }, false)
        } else {
            lex_plain(byte)
        },
    }
}

/// The state after a byte of a statement that is no table header.
pub open spec fn place_entry(scan: Scan, byte: u8) -> Scan {
    let open = scan.stack.len() > 0;
    let top = scan.stack.last();
    if byte == 0x2e {
        if !scan.key {
            scan
        } else if open {
            Scan {
                depth: bump(scan.depth),
                stack: scan.stack.update(
                    scan.stack.len() - 1,
                    Frame { table: top.table, dots: bump(top.dots) },
                ),
                ..scan
            }
        } else {
            Scan { depth: bump(scan.depth), ..scan }
        }
    } else if byte == 0x3d {
        Scan { key: false, ..scan }
    } else if byte == 0x5b {
        Scan {
            key: false,
            depth: bump(scan.depth),
            stack: scan.stack.push(Frame { table: false, dots: 0 }),
            ..scan
        }
    } else if byte == 0x7b {
        Scan {
            key: true,
            depth: bump(scan.depth),
            stack: scan.stack.push(Frame { table: true, dots: 0 }),
            ..scan
        }
    } else if byte == 0x2c {
        if open && top.table {
            Scan {
                key: true,
                depth: less(scan.depth, top.dots),
                stack: scan.stack.update(scan.stack.len() - 1, Frame { table: true, dots: 0 }),
                ..scan
            }
        } else {
            scan
        }
    } else if byte == 0x5d || byte == 0x7d {
        if open {
            Scan {
                key: false,
                depth: less(less(scan.depth, top.dots), 1),
                stack: scan.stack.drop_last(),
                ..scan
            }
        } else {
            scan
        }
    } else {
        scan
    }
}

/// Whether a byte outside of strings and comments is passed over: blanks,
/// and the bytes of a byte order mark, which are no ASCII.
pub open spec fn blank(byte: u8) -> bool {
    byte == 0x20 || byte == 0x09 || byte == 0x0d || byte >= 0x80
}

/// The state after a byte that belongs to the structure of the text.
pub open spec fn place(scan: Scan, byte: u8) -> Scan {
    let next = if blank(byte) {
        scan
    } else if byte == 0x0a {
        if scan.stack.len() == 0 {
            let base = if scan.header {
                scan.depth
            } else {
                scan.base
            };
            Scan { fresh: true, header: false, key: true, base, depth: base, ..scan }
        } else {
            scan
        }
    } else if scan.fresh {
        if byte == 0x5b {
            Scan { fresh: false, header: true, depth: 1, ..scan }
        } else {
            place_entry(Scan { fresh: false, ..scan }, byte)
        }
    } else if scan.header {
        if byte == 0x5b || byte == 0x2e {
            Scan { depth: bump(scan.depth), ..scan }
        } else {
            scan
        }
    } else {
        place_entry(scan, byte)
    };
    Scan { over: next.depth > MAX_NESTING, ..next }
}

/// The state after one more byte.
pub open spec fn step(scan: Scan, byte: u8) -> Scan {
    if scan.over {
        scan
    } else {
        let (mode, plain) = lex(scan.mode, byte);
        let next = Scan { mode, ..scan };
        if plain {
            place(next, byte)
        } else {
            next
        }
    }
}

/// The state before the first byte.
pub open spec fn start() -> Scan {
    Scan {
        mode: Mode::Plain,
        fresh: true,
        header: false,
        key: true,
        stack: Seq::empty(),
        base: 0,
        depth: 0,
        over: false,
    }
}

/// The state after all the bytes of a text.
pub open spec fn scan(bytes: Seq<u8>) -> Scan
    decreases bytes.len(),
{
    if bytes.len() == 0 {
        start()
    } else {
        step(scan(bytes.drop_last()), bytes.last())
    }
}

/// Whether a text nests deeper than [`MAX_NESTING`] somewhere.
pub open spec fn too_deep(bytes: Seq<u8>) -> bool {
    scan(bytes).over
}

/// A byte inside a string or a comment changes nothing but the mode: it
/// opens no level and ends none.
pub proof fn lemma_strings_and_comments_are_passed_over(scan: Scan, byte: u8)
    requires
        !lex(scan.mode, byte).1,
    ensures
        step(scan, byte).depth == scan.depth,
        step(scan, byte).base == scan.base,
        step(scan, byte).stack == scan.stack,
        step(scan, byte).over == scan.over,
{
}

/// How many bytes of a text are an opening bracket, an opening brace or a
/// dot, wherever they stand.
pub open spec fn marks(bytes: Seq<u8>) -> nat
    decreases bytes.len(),
{
    if bytes.len() == 0 {
        0
    } else {
        marks(bytes.drop_last()) + if bytes.last() == 0x5b || bytes.last() == 0x7b
            || bytes.last() == 0x2e {
            1nat
        } else {
            0nat
        }
    }
}

/// The depth that the pass has reached is never more than the number of
/// brackets, braces and dots it has come by.
pub proof fn lemma_depth_within_marks(bytes: Seq<u8>)
    ensures
        scan(bytes).depth <= marks(bytes),
        scan(bytes).base <= marks(bytes),
        scan(bytes).over ==> marks(bytes) > MAX_NESTING,
    decreases bytes.len(),
{
    if bytes.len() > 0 {
        lemma_depth_within_marks(bytes.drop_last());
        let before = scan(bytes.drop_last());
        let byte = bytes.last();
        if !before.over {
            let (mode, plain) = lex(before.mode, byte);
            let at = Scan { mode, ..before };
            if plain {
                assert(scan(bytes) == place(at, byte));
                if !blank(byte) && byte != 0x0a && !(at.fresh && byte == 0x5b) && !at.header {
                    let entered = Scan { fresh: false, ..at };
                    assert(place_entry(entered, byte).depth <= marks(bytes));
                    assert(place_entry(at, byte).depth <= marks(bytes));
                }
            }
        }
    }
}

/// A text with no more than [`MAX_NESTING`] brackets, braces and dots in
/// all is never too deep, whatever it says.
pub proof fn lemma_few_marks_are_within(bytes: Seq<u8>)
    requires
        marks(bytes) <= MAX_NESTING,
    ensures
        !too_deep(bytes),
{
    lemma_depth_within_marks(bytes);
}

struct Scanner {
    mode: Mode,
    fresh: bool,
    header: bool,
    key: bool,
    stack: Vec<Frame>,
    base: usize,
    depth: usize,
    over: bool,
}

impl View for Scanner {
    type V = Scan;

    closed spec fn view(&self) -> Scan {
        Scan {
            mode: self.mode,
            fresh: self.fresh,
            header: self.header,
            key: self.key,
            stack: self.stack@,
            base: self.base,
            depth: self.depth,
            over: self.over,
        }
    }
}

fn quote_of(basic: bool) -> (q: u8)
    ensures
        q == quote(basic),
{
    if basic {
        0x22
    } else {
        0x27
    }
}

fn more(n: usize) -> (r: usize)
    ensures
        r == bump(n),
{
    if n <= MAX_NESTING {
        n + 1
    } else {
        n
    }
}

fn fewer(n: usize, k: usize) -> (r: usize)
    ensures
        r == less(n, k),
{
    if n >= k {
        n - k
    } else {
        0
    }
}

fn read_plain(byte: u8) -> (r: (Mode, bool))
    ensures
        r == lex_plain(byte),
{
    if byte == 0x22 {
        (Mode::Opened { basic: true }, true)
    } else if byte == 0x27 {
        (Mode::Opened { basic: false }, true)
    } else if byte == 0x23 {
        (Mode::Comment, false)
    } else {
        (Mode::Plain, true)
    }
}

fn read_line(basic: bool, byte: u8) -> (r: (Mode, bool))
    ensures
        r == lex_line(basic, byte),
{
    if byte == 0x0a {
        (Mode::Plain, true)
    } else if byte == quote_of(basic) {
        (Mode::Plain, false)
    } else if basic && byte == 0x5c {
        (Mode::LineEscape, false)
    } else {
        (Mode::Line { basic }, false)
    }
}

fn read(mode: Mode, byte: u8) -> (r: (Mode, bool))
    ensures
        r == lex(mode, byte),
{
    match mode {
        Mode::Plain => read_plain(byte),
        Mode::Comment => if byte == 0x0a {
            (Mode::Plain, true)
        } else {
            (Mode::Comment, false)
        },
        Mode::Opened { basic } => if byte == quote_of(basic) {
            (Mode::Empty { basic }, false)
        } else {
            read_line(basic, byte)
        },
        Mode::Empty { basic } => if byte == quote_of(basic) {
            (Mode::Block { basic, quotes: 0 }, false)
        } else {
            read_plain(byte)
        },
        Mode::Line { basic } => read_line(basic, byte),
        Mode::LineEscape => if byte == 0x0a {
            (Mode::Plain, true)
        } else {
            (Mode::Line { basic: true }, false)
        },
        Mode::Block { basic, quotes } => if byte == quote_of(basic) {
            if quotes >= 2 {
                (Mode::Closed { basic, extra: 0 }, false)
            } else {
                (Mode::Block { basic, quotes: quotes + 1 }, false)
            }
        } else if basic && byte == 0x5c {
            (Mode::BlockEscape, false)
        } else {
            (Mode::Block { basic, quotes: 0 }, false)
        },
        Mode::BlockEscape => (Mode::Block { basic: true, quotes: 0 }, false),
        Mode::Closed { basic, extra } => if byte == quote_of(basic) && extra < 2 {
            (Mode::Closed { basic, extra: extra + 1 }, false)
        } else {
            read_plain(byte)
        },
    }
}

fn settle_entry(state: Scanner, byte: u8) -> (next: Scanner)
    ensures
        next@ == place_entry(state@, byte),
{
    let mut next = state;
    let n = next.stack.len();
    if byte == 0x2e {
        if next.key {
            next.depth = more(next.depth);
            if n > 0 {
                let top = next.stack[n - 1];
                next.stack.set(n - 1, Frame { table: top.table, dots: more(top.dots) });
            }
        }
    } else if byte == 0x3d {
        next.key = false;
    } else if byte == 0x5b {
        next.key = false;
        next.depth = more(next.depth);
        next.stack.push(Frame { table: false, dots: 0 });
    } else if byte == 0x7b {
        next.key = true;
        next.depth = more(next.depth);
        next.stack.push(Frame { table: true, dots: 0 });
    } else if byte == 0x2c {
        if n > 0 {
            let top = next.stack[n - 1];
            if top.table {
                next.key = true;
                next.depth = fewer(next.depth, top.dots);
                next.stack.set(n - 1, Frame { table: true, dots: 0 });
            }
        }
    } else if byte == 0x5d || byte == 0x7d {
        if n > 0 {
            let top = next.stack[n - 1];
            next.key = false;
            next.depth = fewer(fewer(next.depth, top.dots), 1);
            next.stack.pop();
        }
    }
    next
}

fn settle(state: Scanner, byte: u8) -> (next: Scanner)
    ensures
        next@ == place(state@, byte),
{
    let mut next = state;
    if byte == 0x20 || byte == 0x09 || byte == 0x0d || byte >= 0x80 {
    } else if byte == 0x0a {
        if next.stack.len() == 0 {
            if next.header {
                next.base = next.depth;
            }
            next.fresh = true;
            next.header = false;
            next.key = true;
            next.depth = next.base;
        }
    } else if next.fresh {
        next.fresh = false;
        if byte == 0x5b {
            next.header = true;
            next.depth = 1;
        } else {
            next = settle_entry(next, byte);
        }
    } else if next.header {
        if byte == 0x5b || byte == 0x2e {
            next.depth = more(next.depth);
        }
    } else {
        next = settle_entry(next, byte);
    }
    next.over = next.depth > MAX_NESTING;
    next
}

fn advance(state: Scanner, byte: u8) -> (next: Scanner)
    ensures
        next@ == step(state@, byte),
{
    if state.over {
        return state;
    }
    let (mode, plain) = read(state.mode, byte);
    let mut next = state;
    next.mode = mode;
    if plain {
        settle(next, byte)
    } else {
        next
    }
}

/// Whether a text nests no deeper than [`MAX_NESTING`] anywhere.
pub fn nesting_within(text: &str) -> (r: bool)
    ensures
        r == !too_deep(vstd::utf8::encode_utf8(text@)),
{
    let bytes = text.as_bytes();
    let mut state = Scanner {
        mode: Mode::Plain,
        fresh: true,
        header: false,
        key: true,
        stack: Vec::new(),
        base: 0,
        depth: 0,
        over: false,
    };
    assert(state@ == start());
    assert(bytes@.take(0) =~= Seq::<u8>::empty());
    let mut i: usize = 0;
    while i < bytes.len()
        invariant
            i <= bytes.len(),
            state@ == scan(bytes@.take(i as int)),
        decreases bytes.len() - i,
    {
        proof {
            assert(bytes@.take(i + 1).drop_last() =~= bytes@.take(i as int));
            assert(bytes@.take(i + 1).last() == bytes@[i as int]);
        }
        state = advance(state, bytes[i]);
        i += 1;
    }
    proof {
        assert(bytes@.take(bytes@.len() as int) =~= bytes@);
    }
    !state.over
}

} // verus!
