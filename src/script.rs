//! The line-based print script: each line `print "message"` becomes a
//! statement, and a script is rendered as a Rust `run` function.
use vstd::prelude::*;
use vstd::string::*;
use crate::lexer::{chars_of, is_space_char, space_char};

verus! {

/// A statement of a print script.
#[derive(Debug, Clone, PartialEq, Eq)]
pub enum Statement {
    Print(String),
}

/// The end of the line that starts at `i`: the next `\n`, or the end.
pub open spec fn line_end(s: Seq<char>, i: int) -> int
    decreases s.len() - i,
{
    if i < 0 || i >= s.len() || s[i] == '\n' {
        i
    } else {
        line_end(s, i + 1)
    }
}

/// The first position in `i..end` that is not whitespace, or `end`.
pub open spec fn skip_space(s: Seq<char>, i: int, end: int) -> int
    decreases end - i,
{
    if i < 0 || i >= end || !space_char(s[i]) {
        i
    } else {
        skip_space(s, i + 1, end)
    }
}

/// The end of `start..j` once trailing whitespace is dropped.
pub open spec fn drop_space(s: Seq<char>, start: int, j: int) -> int
    decreases j - start,
{
    if j <= start || !space_char(s[j - 1]) {
        j
    } else {
        drop_space(s, start, j - 1)
    }
}

/// `s[i..end]` starts with `print `.
pub open spec fn print_at(s: Seq<char>, i: int, end: int) -> bool {
    &&& 0 <= i
    &&& i + 6 <= end
    &&& s[i] == 'p'
    &&& s[i + 1] == 'r'
    &&& s[i + 2] == 'i'
    &&& s[i + 3] == 'n'
    &&& s[i + 4] == 't'
    &&& s[i + 5] == ' '
}

/// The position after every leading `print ` of `s[i..end]`.
pub open spec fn skip_print(s: Seq<char>, i: int, end: int) -> int
    decreases end - i,
{
    if print_at(s, i, end) {
        skip_print(s, i + 6, end)
    } else {
        i
    }
}

/// The first position in `i..end` that is not a `"`, or `end`.
pub open spec fn skip_quotes(s: Seq<char>, i: int, end: int) -> int
    decreases end - i,
{
    if i < 0 || i >= end || s[i] != '"' {
        i
    } else {
        skip_quotes(s, i + 1, end)
    }
}

/// The end of `start..j` once trailing `"` are dropped.
pub open spec fn drop_quotes(s: Seq<char>, start: int, j: int) -> int
    decreases j - start,
{
    if j <= start || s[j - 1] != '"' {
        j
    } else {
        drop_quotes(s, start, j - 1)
    }
}

/// The message of the line `s[a..b]`: trimmed of whitespace, it must start
/// with `print `; every leading `print ` and every surrounding `"` is
/// removed.
pub open spec fn message_of(s: Seq<char>, a: int, b: int) -> Option<Seq<char>> {
    let a1 = skip_space(s, a, b);
    let b1 = drop_space(s, a1, b);
    if print_at(s, a1, b1) {
        let c = skip_quotes(s, skip_print(s, a1, b1), b1);
        Some(s.subrange(c, drop_quotes(s, c, b1)))
    } else {
        None
    }
}

/// The messages of the lines from position `i` on. A line ends at `\n`, or
/// at `\r\n` with the `\r` dropped; a final line ending is optional.
pub open spec fn script_from(s: Seq<char>, i: int) -> Seq<Seq<char>>
    decreases s.len() - i,
{
    if i < 0 || i >= s.len() {
        Seq::empty()
    } else {
        let j = line_end(s, i);
        let b = if j < s.len() && j > i && s[j - 1] == '\r' {
            j - 1
        } else {
            j
        };
        let here = match message_of(s, i, b) {
            Some(m) => seq![m],
            None => Seq::empty(),
        };
        if j <= i && j < s.len() {
            here.add(script_from(s, i + 1))
        } else if j >= s.len() {
            here
        } else {
            here.add(script_from(s, j + 1))
        }
    }
}

/// The messages of a list of statements.
pub open spec fn messages(stmts: Seq<Statement>) -> Seq<Seq<char>> {
    stmts.map_values(|st: Statement| match st {
        Statement::Print(m) => m@,
    })
}

fn find_line_end(s: &Vec<char>, i: usize) -> (r: usize)
    requires
        i <= s@.len(),
    ensures
        r == line_end(s@, i as int),
        i <= r <= s@.len(),
{
    let mut k = i;
    while k < s.len() && s[k] != '\n'
        invariant
            i <= k <= s@.len(),
            line_end(s@, i as int) == line_end(s@, k as int),
        decreases s@.len() - k,
    {
        k += 1;
    }
    k
}

fn skip_space_from(s: &Vec<char>, i: usize, end: usize) -> (r: usize)
    requires
        i <= end <= s@.len(),
    ensures
        r == skip_space(s@, i as int, end as int),
        i <= r <= end,
{
    let mut k = i;
    while k < end && is_space_char(s[k])
        invariant
            i <= k <= end,
            end <= s@.len(),
            skip_space(s@, i as int, end as int) == skip_space(s@, k as int, end as int),
        decreases end - k,
    {
        k += 1;
    }
    k
}

fn drop_space_to(s: &Vec<char>, start: usize, j: usize) -> (r: usize)
    requires
        start <= j <= s@.len(),
    ensures
        r == drop_space(s@, start as int, j as int),
        start <= r <= j,
{
    let mut k = j;
    while k > start && is_space_char(s[k - 1])
        invariant
            start <= k <= j,
            j <= s@.len(),
            drop_space(s@, start as int, j as int) == drop_space(s@, start as int, k as int),
        decreases k,
    {
        k -= 1;
    }
    k
}

fn is_print_at(s: &Vec<char>, i: usize, end: usize) -> (r: bool)
    requires
        end <= s@.len(),
    ensures
        r == print_at(s@, i as int, end as int),
{
    i <= end && end - i >= 6 && s[i] == 'p' && s[i + 1] == 'r' && s[i + 2] == 'i' && s[i + 3] == 'n'
        && s[i + 4] == 't' && s[i + 5] == ' '
}

fn skip_print_from(s: &Vec<char>, i: usize, end: usize) -> (r: usize)
    requires
        i <= end <= s@.len(),
    ensures
        r == skip_print(s@, i as int, end as int),
        i <= r <= end,
{
    let mut k = i;
    while is_print_at(s, k, end)
        invariant
            i <= k <= end,
            end <= s@.len(),
            skip_print(s@, i as int, end as int) == skip_print(s@, k as int, end as int),
        decreases end - k,
    {
        k += 6;
    }
    k
}

fn skip_quotes_from(s: &Vec<char>, i: usize, end: usize) -> (r: usize)
    requires
        i <= end <= s@.len(),
    ensures
        r == skip_quotes(s@, i as int, end as int),
        i <= r <= end,
{
    let mut k = i;
    while k < end && s[k] == '"'
        invariant
            i <= k <= end,
            end <= s@.len(),
            skip_quotes(s@, i as int, end as int) == skip_quotes(s@, k as int, end as int),
        decreases end - k,
    {
        k += 1;
    }
    k
}

fn drop_quotes_to(s: &Vec<char>, start: usize, j: usize) -> (r: usize)
    requires
        start <= j <= s@.len(),
    ensures
        r == drop_quotes(s@, start as int, j as int),
        start <= r <= j,
{
    let mut k = j;
    while k > start && s[k - 1] == '"'
        invariant
            start <= k <= j,
            j <= s@.len(),
            drop_quotes(s@, start as int, j as int) == drop_quotes(s@, start as int, k as int),
        decreases k,
    {
        k -= 1;
    }
    k
}

/// The message of the line `a..b` of `source`, whose characters are `s`.
fn line_message(s: &Vec<char>, source: &str, a: usize, b: usize) -> (r: Option<String>)
    requires
        s@ == source@,
        a <= b <= s@.len(),
    ensures
        match message_of(s@, a as int, b as int) {
            Some(m) => r matches Some(t) && t@ == m,
            None => r is None,
        },
{
    let a1 = skip_space_from(s, a, b);
    let b1 = drop_space_to(s, a1, b);
    if is_print_at(s, a1, b1) {
        let c0 = skip_print_from(s, a1, b1);
        let c = skip_quotes_from(s, c0, b1);
        let d = drop_quotes_to(s, c, b1);
        Some(source.substring_char(c, d).to_owned())
    } else {
        None
    }
}

/// Reads a print script: one `Print` statement for each line that, trimmed
/// of whitespace, starts with `print `, holding the rest of the line without
/// further leading `print ` and without surrounding `"`. Other lines are
/// skipped.
pub fn parse(source: &str) -> (r: Vec<Statement>)
    ensures
        messages(r@) == script_from(source@, 0),
{
    let s = chars_of(source);
    let n = s.len();
    let mut out: Vec<Statement> = Vec::new();
    let mut i: usize = 0;
    assert(messages(out@).add(script_from(s@, 0)) =~= script_from(s@, 0));
    while i < n
        invariant
            s@ == source@,
            n == s@.len(),
            i <= n,
            script_from(s@, 0) == messages(out@).add(script_from(s@, i as int)),
        decreases n - i,
    {
        let j = find_line_end(&s, i);
        let b = if j < n && j > i && s[j - 1] == '\r' {
            j - 1
        } else {
            j
        };
        let ghost before = out@;
        match line_message(&s, source, i, b) {
            Some(m) => {
                out.push(Statement::Print(m));
            },
            None => {},
        }
        proof {
            let here = match message_of(s@, i as int, b as int) {
                Some(m) => seq![m],
                None => Seq::<Seq<char>>::empty(),
            };
            assert(messages(out@) =~= messages(before).add(here));
        }
        if j >= n {
            proof {
                assert(script_from(s@, n as int) =~= Seq::<Seq<char>>::empty());
            }
            i = n;
        } else {
            i = j + 1;
        }
        proof {
            assert(messages(out@).add(script_from(s@, i as int)) =~= script_from(s@, 0));
        }
    }
    assert(script_from(s@, i as int) =~= Seq::<Seq<char>>::empty());
    assert(messages(out@).add(Seq::<Seq<char>>::empty()) =~= messages(out@));
    out
}

/// The line that prints one message.
pub open spec fn print_line(m: Seq<char>) -> Seq<char> {
    "    println!(\""@ + m + "\\n\");\n"@
}

/// The lines that print each message, in order.
pub open spec fn print_lines(ms: Seq<Seq<char>>) -> Seq<char>
    decreases ms.len(),
{
    if ms.len() == 0 {
        Seq::empty()
    } else {
        print_lines(ms.drop_last()) + print_line(ms.last())
    }
}

/// Renders a script as the source of a Rust function `run` that prints each
/// message followed by an escaped newline.
pub fn transpile_to_rust(stmts: &Vec<Statement>) -> (r: String)
    ensures
        r@ == "fn run() {\n"@ + print_lines(messages(stmts@)) + "}\n"@,
{
    let mut code = String::from_str("fn run() {\n");
    let mut i: usize = 0;
    while i < stmts.len()
        invariant
            i <= stmts@.len(),
            code@ == "fn run() {\n"@ + print_lines(messages(stmts@.subrange(0, i as int))),
        decreases stmts@.len() - i,
    {
        match &stmts[i] {
            Statement::Print(msg) => {
                code.append("    println!(\"");
                code.append(msg.as_str());
                code.append("\\n\");\n");
                proof {
                    let pre = messages(stmts@.subrange(0, i as int));
                    let post = messages(stmts@.subrange(0, i + 1));
                    assert(post.drop_last() =~= pre);
                    assert(post.last() == msg@);
                }
            },
        }
        i += 1;
    }
    assert(stmts@.subrange(0, i as int) =~= stmts@);
    code.append("}\n");
    code
}

} // verus!
