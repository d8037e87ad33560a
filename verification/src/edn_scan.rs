//! A scan of EDN text, done before edn-rs reads it, that follows the reader's way through the
//! text character by character and tells whether the reader can take the text safely: every
//! number it would read is ASCII (edn-rs slices a number's text at positions found in its
//! lowercase form, which a non-ASCII character can shift), containers and tagged values nest at
//! most `EDN_DEPTH` deep, and at most `EDN_GAP` whitespace characters, commas, comments and tags
//! come one after another (edn-rs reads each of these, and each level of nesting, by recursion).
//! Before the scan, `collapse_separators` writes each run of whitespace, commas and comments
//! between values as one space, which the reader takes alike; after it, only tags waiting for
//! their value add up to a gap, and the depth bound already limits how many of those there are.
use vstd::prelude::*;

use crate::chars::{is_whitespace, is_ws, push_char};

verus! {

/// How deep containers and tagged values may nest: what the reader's recursion takes, with
/// room to spare, on the stack of a thread that Rust starts (2 MiB).
pub const EDN_DEPTH: usize = 512;

/// How many whitespace characters, commas, comments and tags may come one after another: a
/// separator between each two of as many tags as `EDN_DEPTH` admits.
pub const EDN_GAP: u64 = 1032;

/// What `char::is_numeric` says of a character.
pub uninterp spec fn numeric(c: char) -> bool;

/// `char::is_numeric`. The contract names the result and claims nothing more of it.
#[verifier::external_body]
fn is_numeric(c: char) -> (r: bool)
    ensures
        r == numeric(c),
{
    c.is_numeric()
}

/// Where the reader stands.
#[derive(Debug, Clone, Copy, PartialEq, Eq, Structural)]
pub enum ScanMode {
    /// Before a value: a value, whitespace, a comma, a comment or a closing bracket comes next.
    Elem,
    /// Inside a string.
    Str,
    /// Inside a string, right after a backslash.
    StrEscape,
    /// Inside a comment, up to the end of the line.
    Comment,
    /// Inside a tag, up to whitespace or a comma.
    Tag,
    /// Inside a keyword.
    Key,
    /// Inside a number.
    Num,
    /// Inside a symbol, which may take this many more characters.
    Sym(u32),
    /// Right after the backslash of a character literal.
    CharLit,
}

pub open spec fn is_delim(c: char) -> bool {
    c == ',' || c == ']' || c == '}' || c == ')' || c == ';' || c == '(' || c == '[' || c == '{'
}

/// A character that continues a keyword, number or symbol.
pub open spec fn run_char(c: char) -> bool {
    !is_ws(c) && !is_delim(c)
}

pub open spec fn is_closer(c: char) -> bool {
    c == ']' || c == ')' || c == '}'
}

pub open spec fn is_ascii(c: char) -> bool {
    c < '\u{80}'
}

/// The open containers' closing brackets, with a `#` for each tagged or discarded value still
/// waiting for its value; once a value ends, the tags waiting for it are done.
pub open spec fn pop_tags(st: Seq<char>) -> Seq<char>
    decreases st.len(),
{
    if st.len() > 0 && st.last() == '#' {
        pop_tags(st.drop_last())
    } else {
        st
    }
}

pub open spec fn mode_rank(m: ScanMode) -> nat {
    match m {
        ScanMode::Elem => 0,
        _ => 1,
    }
}

/// Whether the reader, standing in `mode` at `s[i]` with the open containers and tags `stack`
/// after `gap` characters that separate values, can read the rest of `s` safely.
pub open spec fn scan(s: Seq<char>, i: int, mode: ScanMode, stack: Seq<char>, gap: nat) -> bool
    decreases s.len() - i, mode_rank(mode),
{
    if i < 0 || i >= s.len() {
        true
    } else if stack.len() > EDN_DEPTH || gap > EDN_GAP {
        false
    } else {
        let c = s[i];
        match mode {
            ScanMode::Elem => if is_ws(c) || c == ',' {
                scan(s, i + 1, ScanMode::Elem, stack, gap + 1)
            } else if c == ';' {
                scan(s, i + 1, ScanMode::Comment, stack, gap + 1)
            } else if c == '#' {
                if i + 1 < s.len() && s[i + 1] == '{' {
                    scan(s, i + 2, ScanMode::Elem, stack.push('}'), 0)
                } else if i + 1 < s.len() && s[i + 1] == '_' {
                    scan(s, i + 2, ScanMode::Elem, stack.push('#'), gap + 1)
                } else {
                    scan(s, i + 1, ScanMode::Tag, stack.push('#'), gap + 1)
                }
            } else if c == '[' {
                scan(s, i + 1, ScanMode::Elem, stack.push(']'), 0)
            } else if c == '(' {
                scan(s, i + 1, ScanMode::Elem, stack.push(')'), 0)
            } else if c == '{' {
                scan(s, i + 1, ScanMode::Elem, stack.push('}'), 0)
            } else if is_closer(c) && stack.len() > 0 && stack.last() == c {
                scan(s, i + 1, ScanMode::Elem, pop_tags(stack.drop_last()), 0)
            } else if c == '"' {
                scan(s, i + 1, ScanMode::Str, stack, 0)
            } else if c == ':' {
                scan(s, i + 1, ScanMode::Key, stack, 0)
            } else if numeric(c) || ((c == '+' || c == '-') && i + 1 < s.len() && numeric(s[i + 1])) {
                is_ascii(c) && scan(s, i + 1, ScanMode::Num, stack, 0)
            } else if c == '\\' {
                scan(s, i + 1, ScanMode::CharLit, stack, 0)
            } else {
                scan(s, i + 1, ScanMode::Sym(201), stack, 0)
            },
            ScanMode::Str => if c == '"' {
                scan(s, i + 1, ScanMode::Elem, pop_tags(stack), 0)
            } else if c == '\\' {
                scan(s, i + 1, ScanMode::StrEscape, stack, gap)
            } else {
                scan(s, i + 1, ScanMode::Str, stack, gap)
            },
            ScanMode::StrEscape => scan(s, i + 1, ScanMode::Str, stack, gap),
            ScanMode::Comment => if c == '\n' {
                scan(s, i + 1, ScanMode::Elem, stack, gap)
            } else {
                scan(s, i + 1, ScanMode::Comment, stack, gap)
            },
            ScanMode::Tag => if is_ws(c) || c == ',' {
                scan(s, i + 1, ScanMode::Elem, stack, gap)
            } else {
                scan(s, i + 1, ScanMode::Tag, stack, gap)
            },
            ScanMode::Key => if run_char(c) {
                scan(s, i + 1, ScanMode::Key, stack, gap)
            } else {
                scan(s, i, ScanMode::Elem, pop_tags(stack), gap)
            },
            ScanMode::Num => if run_char(c) {
                is_ascii(c) && scan(s, i + 1, ScanMode::Num, stack, gap)
            } else {
                scan(s, i, ScanMode::Elem, pop_tags(stack), gap)
            },
            ScanMode::Sym(k) => if run_char(c) && k > 0 {
                scan(s, i + 1, ScanMode::Sym((k - 1) as u32), stack, gap)
            } else {
                scan(s, i, ScanMode::Elem, pop_tags(stack), gap)
            },
            ScanMode::CharLit => scan(s, i + 1, ScanMode::Elem, pop_tags(stack), 0),
        }
    }
}

/// Whether edn-rs can read `s` safely (see the module's description).
pub open spec fn edn_readable(s: Seq<char>) -> bool {
    scan(s, 0, ScanMode::Elem, Seq::empty(), 0)
}

/// The text as the reader sees it, with each run of whitespace, commas and comments between
/// values written as one space; the rest (strings, character literals, tags, keywords, numbers
/// and symbols) is kept as it is. `sep` tells whether a space was just written for such a run.
/// The reader takes a run of separators as it takes one, so it reads both texts alike.
pub open spec fn collapse_from(s: Seq<char>, i: int, mode: ScanMode, stack: Seq<char>, sep: bool) -> Seq<char>
    decreases s.len() - i, mode_rank(mode),
{
    if i < 0 || i >= s.len() {
        Seq::empty()
    } else {
        let c = s[i];
        let space = if sep { Seq::empty() } else { seq![' '] };
        match mode {
            ScanMode::Elem => if is_ws(c) || c == ',' {
                space + collapse_from(s, i + 1, ScanMode::Elem, stack, true)
            } else if c == ';' {
                space + collapse_from(s, i + 1, ScanMode::Comment, stack, true)
            } else if c == '#' {
                if i + 1 < s.len() && s[i + 1] == '{' {
                    seq![c, '{'] + collapse_from(s, i + 2, ScanMode::Elem, stack.push('}'), false)
                } else if i + 1 < s.len() && s[i + 1] == '_' {
                    seq![c, '_'] + collapse_from(s, i + 2, ScanMode::Elem, stack.push('#'), false)
                } else {
                    seq![c] + collapse_from(s, i + 1, ScanMode::Tag, stack.push('#'), false)
                }
            } else if c == '[' {
                seq![c] + collapse_from(s, i + 1, ScanMode::Elem, stack.push(']'), false)
            } else if c == '(' {
                seq![c] + collapse_from(s, i + 1, ScanMode::Elem, stack.push(')'), false)
            } else if c == '{' {
                seq![c] + collapse_from(s, i + 1, ScanMode::Elem, stack.push('}'), false)
            } else if is_closer(c) && stack.len() > 0 && stack.last() == c {
                seq![c] + collapse_from(s, i + 1, ScanMode::Elem, pop_tags(stack.drop_last()), false)
            } else if c == '"' {
                seq![c] + collapse_from(s, i + 1, ScanMode::Str, stack, false)
            } else if c == ':' {
                seq![c] + collapse_from(s, i + 1, ScanMode::Key, stack, false)
            } else if numeric(c) || ((c == '+' || c == '-') && i + 1 < s.len() && numeric(s[i + 1])) {
                seq![c] + collapse_from(s, i + 1, ScanMode::Num, stack, false)
            } else if c == '\\' {
                seq![c] + collapse_from(s, i + 1, ScanMode::CharLit, stack, false)
            } else {
                seq![c] + collapse_from(s, i + 1, ScanMode::Sym(201), stack, false)
            },
            ScanMode::Str => if c == '"' {
                seq![c] + collapse_from(s, i + 1, ScanMode::Elem, pop_tags(stack), false)
            } else if c == '\\' {
                seq![c] + collapse_from(s, i + 1, ScanMode::StrEscape, stack, false)
            } else {
                seq![c] + collapse_from(s, i + 1, ScanMode::Str, stack, false)
            },
            ScanMode::StrEscape => seq![c] + collapse_from(s, i + 1, ScanMode::Str, stack, false),
            ScanMode::Comment => if c == '\n' {
                collapse_from(s, i + 1, ScanMode::Elem, stack, sep)
            } else {
                collapse_from(s, i + 1, ScanMode::Comment, stack, sep)
            },
            ScanMode::Tag => if is_ws(c) || c == ',' {
                seq![c] + collapse_from(s, i + 1, ScanMode::Elem, stack, false)
            } else {
                seq![c] + collapse_from(s, i + 1, ScanMode::Tag, stack, false)
            },
            ScanMode::Key => if run_char(c) {
                seq![c] + collapse_from(s, i + 1, ScanMode::Key, stack, false)
            } else {
                collapse_from(s, i, ScanMode::Elem, pop_tags(stack), false)
            },
            ScanMode::Num => if run_char(c) {
                seq![c] + collapse_from(s, i + 1, ScanMode::Num, stack, false)
            } else {
                collapse_from(s, i, ScanMode::Elem, pop_tags(stack), false)
            },
            ScanMode::Sym(k) => if run_char(c) && k > 0 {
                seq![c] + collapse_from(s, i + 1, ScanMode::Sym((k - 1) as u32), stack, false)
            } else {
                collapse_from(s, i, ScanMode::Elem, pop_tags(stack), false)
            },
            ScanMode::CharLit => seq![c] + collapse_from(s, i + 1, ScanMode::Elem, pop_tags(stack), false),
        }
    }
}

/// The text with each run of separators between values written as one space (see
/// `collapse_from`).
pub open spec fn collapse(s: Seq<char>) -> Seq<char> {
    collapse_from(s, 0, ScanMode::Elem, Seq::empty(), false)
}

fn is_delim_char(c: char) -> (r: bool)
    ensures
        r == is_delim(c),
{
    c == ',' || c == ']' || c == '}' || c == ')' || c == ';' || c == '(' || c == '[' || c == '{'
}

fn pop_tags_exec(st: &mut Vec<char>)
    ensures
        final(st)@ == pop_tags(old(st)@),
{
    while st.len() > 0 && st[st.len() - 1] == '#'
        invariant
            pop_tags(st@) == pop_tags(old(st)@),
        decreases st@.len(),
    {
        let ghost before = st@;
        st.pop();
        assert(st@ =~= before.drop_last());
    }
}

/// Whether edn-rs can read `text` safely (see `edn_readable`).
pub fn edn_text_readable(text: &str) -> (r: bool)
    ensures
        r == edn_readable(text@),
{
    let s = crate::chars::to_chars(text);
    let n = s.len();
    let mut i: usize = 0;
    let mut mode = ScanMode::Elem;
    let mut stack: Vec<char> = Vec::new();
    let mut gap: u64 = 0;
    while i < n
        invariant
            n == s@.len(),
            s@ == text@,
            i <= n,
            gap <= EDN_GAP + 1,
            edn_readable(text@) == scan(s@, i as int, mode, stack@, gap as nat),
        decreases 2 * (n - i) + mode_rank(mode),
    {
        if stack.len() > EDN_DEPTH || gap > EDN_GAP {
            return false;
        }
        let c = s[i];
        let ws = is_whitespace(c);
        match mode {
            ScanMode::Elem => {
                if ws || c == ',' {
                    gap = gap + 1;
                    i = i + 1;
                } else if c == ';' {
                    gap = gap + 1;
                    mode = ScanMode::Comment;
                    i = i + 1;
                } else if c == '#' {
                    if i + 1 < n && s[i + 1] == '{' {
                        stack.push('}');
                        gap = 0;
                        i = i + 2;
                    } else if i + 1 < n && s[i + 1] == '_' {
                        stack.push('#');
                        gap = gap + 1;
                        i = i + 2;
                    } else {
                        stack.push('#');
                        gap = gap + 1;
                        mode = ScanMode::Tag;
                        i = i + 1;
                    }
                } else if c == '[' {
                    stack.push(']');
                    gap = 0;
                    i = i + 1;
                } else if c == '(' {
                    stack.push(')');
                    gap = 0;
                    i = i + 1;
                } else if c == '{' {
                    stack.push('}');
                    gap = 0;
                    i = i + 1;
                } else if (c == ']' || c == ')' || c == '}') && stack.len() > 0 && stack[stack.len() - 1] == c {
                    let ghost before = stack@;
                    stack.pop();
                    assert(stack@ =~= before.drop_last());
                    pop_tags_exec(&mut stack);
                    gap = 0;
                    i = i + 1;
                } else if c == '"' {
                    mode = ScanMode::Str;
                    gap = 0;
                    i = i + 1;
                } else if c == ':' {
                    mode = ScanMode::Key;
                    gap = 0;
                    i = i + 1;
                } else if is_numeric(c) || ((c == '+' || c == '-') && i + 1 < n && is_numeric(s[i + 1])) {
                    if !(c < '\u{80}') {
                        return false;
                    }
                    mode = ScanMode::Num;
                    gap = 0;
                    i = i + 1;
                } else if c == '\\' {
                    mode = ScanMode::CharLit;
                    gap = 0;
                    i = i + 1;
                } else {
                    mode = ScanMode::Sym(201);
                    gap = 0;
                    i = i + 1;
                }
            },
            ScanMode::Str => {
                if c == '"' {
                    pop_tags_exec(&mut stack);
                    mode = ScanMode::Elem;
                    gap = 0;
                } else if c == '\\' {
                    mode = ScanMode::StrEscape;
                }
                i = i + 1;
            },
            ScanMode::StrEscape => {
                mode = ScanMode::Str;
                i = i + 1;
            },
            ScanMode::Comment => {
                if c == '\n' {
                    mode = ScanMode::Elem;
                }
                i = i + 1;
            },
            ScanMode::Tag => {
                if ws || c == ',' {
                    mode = ScanMode::Elem;
                }
                i = i + 1;
            },
            ScanMode::Key => {
                if !ws && !is_delim_char(c) {
                    i = i + 1;
                } else {
                    pop_tags_exec(&mut stack);
                    mode = ScanMode::Elem;
                }
            },
            ScanMode::Num => {
                if !ws && !is_delim_char(c) {
                    if !(c < '\u{80}') {
                        return false;
                    }
                    i = i + 1;
                } else {
                    pop_tags_exec(&mut stack);
                    mode = ScanMode::Elem;
                }
            },
            ScanMode::Sym(k) => {
                if !ws && !is_delim_char(c) && k > 0 {
                    mode = ScanMode::Sym(k - 1);
                    i = i + 1;
                } else {
                    pop_tags_exec(&mut stack);
                    mode = ScanMode::Elem;
                }
            },
            ScanMode::CharLit => {
                pop_tags_exec(&mut stack);
                mode = ScanMode::Elem;
                gap = 0;
                i = i + 1;
            },
        }
    }
    true
}

/// The text with each run of separators between values written as one space (see `collapse`).
pub fn collapse_separators(text: &str) -> (r: String)
    ensures
        r@ == collapse(text@),
{
    let s = crate::chars::to_chars(text);
    let n = s.len();
    let mut out = String::new();
    let mut i: usize = 0;
    let mut mode = ScanMode::Elem;
    let mut stack: Vec<char> = Vec::new();
    let mut sep = false;
    assert(out@ + collapse_from(s@, 0, mode, stack@, sep) =~= collapse(text@));
    while i < n
        invariant
            n == s@.len(),
            s@ == text@,
            i <= n,
            out@ + collapse_from(s@, i as int, mode, stack@, sep) == collapse(text@),
        decreases 2 * (n - i) + mode_rank(mode),
    {
        let c = s[i];
        let ws = is_whitespace(c);
        let ghost before = out@;
        let ghost rest = collapse_from(s@, i as int, mode, stack@, sep);
        match mode {
            ScanMode::Elem => {
                if ws || c == ',' || c == ';' {
                    if !sep {
                        push_char(&mut out, ' ');
                    }
                    if c == ';' {
                        mode = ScanMode::Comment;
                    }
                    sep = true;
                    i = i + 1;
                } else {
                    push_char(&mut out, c);
                    sep = false;
                    if c == '#' {
                        if i + 1 < n && s[i + 1] == '{' {
                            push_char(&mut out, '{');
                            stack.push('}');
                            i = i + 2;
                        } else if i + 1 < n && s[i + 1] == '_' {
                            push_char(&mut out, '_');
                            stack.push('#');
                            i = i + 2;
                        } else {
                            stack.push('#');
                            mode = ScanMode::Tag;
                            i = i + 1;
                        }
                    } else if c == '[' {
                        stack.push(']');
                        i = i + 1;
                    } else if c == '(' {
                        stack.push(')');
                        i = i + 1;
                    } else if c == '{' {
                        stack.push('}');
                        i = i + 1;
                    } else if (c == ']' || c == ')' || c == '}') && stack.len() > 0 && stack[stack.len() - 1] == c {
                        let ghost st = stack@;
                        stack.pop();
                        assert(stack@ =~= st.drop_last());
                        pop_tags_exec(&mut stack);
                        i = i + 1;
                    } else if c == '"' {
                        mode = ScanMode::Str;
                        i = i + 1;
                    } else if c == ':' {
                        mode = ScanMode::Key;
                        i = i + 1;
                    } else if is_numeric(c) || ((c == '+' || c == '-') && i + 1 < n && is_numeric(s[i + 1])) {
                        mode = ScanMode::Num;
                        i = i + 1;
                    } else if c == '\\' {
                        mode = ScanMode::CharLit;
                        i = i + 1;
                    } else {
                        mode = ScanMode::Sym(201);
                        i = i + 1;
                    }
                }
            },
            ScanMode::Str => {
                push_char(&mut out, c);
                sep = false;
                if c == '"' {
                    pop_tags_exec(&mut stack);
                    mode = ScanMode::Elem;
                } else if c == '\\' {
                    mode = ScanMode::StrEscape;
                }
                i = i + 1;
            },
            ScanMode::StrEscape => {
                push_char(&mut out, c);
                sep = false;
                mode = ScanMode::Str;
                i = i + 1;
            },
            ScanMode::Comment => {
                if c == '\n' {
                    mode = ScanMode::Elem;
                }
                i = i + 1;
            },
            ScanMode::Tag => {
                push_char(&mut out, c);
                sep = false;
                if ws || c == ',' {
                    mode = ScanMode::Elem;
                }
                i = i + 1;
            },
            ScanMode::Key => {
                sep = false;
                if !ws && !is_delim_char(c) {
                    push_char(&mut out, c);
                    i = i + 1;
                } else {
                    pop_tags_exec(&mut stack);
                    mode = ScanMode::Elem;
                }
            },
            ScanMode::Num => {
                sep = false;
                if !ws && !is_delim_char(c) {
                    push_char(&mut out, c);
                    i = i + 1;
                } else {
                    pop_tags_exec(&mut stack);
                    mode = ScanMode::Elem;
                }
            },
            ScanMode::Sym(k) => {
                sep = false;
                if !ws && !is_delim_char(c) && k > 0 {
                    push_char(&mut out, c);
                    mode = ScanMode::Sym(k - 1);
                    i = i + 1;
                } else {
                    pop_tags_exec(&mut stack);
                    mode = ScanMode::Elem;
                }
            },
            ScanMode::CharLit => {
                push_char(&mut out, c);
                sep = false;
                pop_tags_exec(&mut stack);
                mode = ScanMode::Elem;
                i = i + 1;
            },
        }
        assert(out@ + collapse_from(s@, i as int, mode, stack@, sep) =~= before + rest);
    }
    assert(out@ + collapse_from(s@, i as int, mode, stack@, sep) =~= out@);
    out
}

} // verus!
