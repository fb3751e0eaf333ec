//! The grammar of a symbol listing: one entry per line, `BB:AAAA NAME`.

use crate::text::append_char;
use vstd::prelude::*;

verus! {

/// A single symbol entry parsed from a `.sym` file.
///
/// `bank` is the memory bank, and `address` is the in-bank address.
#[derive(Debug, Clone, Copy, PartialEq, Eq, Structural, Hash)]
pub struct Symbol {
    /// Memory bank for the symbol.
    pub bank: u8,
    /// In-bank address for the symbol.
    pub address: u16,
}

/// Whether `c` separates tokens: the characters that Unicode calls white space.
pub open spec fn is_space(c: char) -> bool {
    let n = c as u32;
    ||| 0x09 <= n <= 0x0D
    ||| n == 0x20
    ||| n == 0x85
    ||| n == 0xA0
    ||| n == 0x1680
    ||| 0x2000 <= n <= 0x200A
    ||| n == 0x2028
    ||| n == 0x2029
    ||| n == 0x202F
    ||| n == 0x205F
    ||| n == 0x3000
}

/// The value of `c` as a hexadecimal digit of either case, if it is one.
pub open spec fn hex_digit_value(c: char) -> Option<u8> {
    let n = c as u32;
    if 0x30 <= n <= 0x39 {
        Some((n - 0x30) as u8)
    } else if 0x41 <= n <= 0x46 {
        Some((n - 0x41 + 10) as u8)
    } else if 0x61 <= n <= 0x66 {
        Some((n - 0x61 + 10) as u8)
    } else {
        None
    }
}

/// Whether `c` may stand in a symbol's name: an ASCII letter or digit, `_` or `.`.
pub open spec fn is_name_char(c: char) -> bool {
    let n = c as u32;
    ||| 0x30 <= n <= 0x39
    ||| 0x41 <= n <= 0x5A
    ||| 0x61 <= n <= 0x7A
    ||| n == 0x5F
    ||| n == 0x2E
}

/// Whether `token` is a name: at least one character, each of them a name character.
pub open spec fn is_name(token: Seq<char>) -> bool {
    token.len() > 0 && forall|i: int| 0 <= i < token.len() ==> is_name_char(#[trigger] token[i])
}

/// Whether every character of `digits` is a hexadecimal digit.
pub open spec fn all_hex(digits: Seq<char>) -> bool {
    forall|i: int| 0 <= i < digits.len() ==> hex_digit_value(#[trigger] digits[i]) is Some
}

/// The number that the hexadecimal digits `digits` write, most significant first.
pub open spec fn hex_value(digits: Seq<char>) -> nat
    decreases digits.len(),
{
    if digits.len() == 0 {
        0
    } else {
        hex_value(digits.drop_last()) * 16 + match hex_digit_value(digits.last()) {
            Some(v) => v as nat,
            None => 0,
        }
    }
}

/// The symbol that the token `BB:AAAA` writes: exactly two hexadecimal digits,
/// a colon, exactly four hexadecimal digits.
pub open spec fn parse_location(token: Seq<char>) -> Option<Symbol> {
    if token.len() == 7 && all_hex(token.subrange(0, 2)) && token[2] == ':' && all_hex(
        token.subrange(3, 7),
    ) {
        Some(
            Symbol {
                bank: hex_value(token.subrange(0, 2)) as u8,
                address: hex_value(token.subrange(3, 7)) as u16,
            },
        )
    } else {
        None
    }
}

/// The first index from `from` on that holds no space, or the length of `line`.
pub open spec fn token_start(line: Seq<char>, from: int) -> int
    decreases line.len() - from,
{
    if 0 <= from < line.len() && is_space(line[from]) {
        token_start(line, from + 1)
    } else {
        from
    }
}

/// The first index from `from` on that holds a space, or the length of `line`.
pub open spec fn token_end(line: Seq<char>, from: int) -> int
    decreases line.len() - from,
{
    if 0 <= from < line.len() && !is_space(line[from]) {
        token_end(line, from + 1)
    } else {
        from
    }
}

/// The entry that `line` writes, if it writes one: a location token, a name
/// token, and nothing else but space before, between and after them.
pub open spec fn spec_parse_sym_line(line: Seq<char>) -> Option<(Seq<char>, Symbol)> {
    let a = token_start(line, 0);
    let b = token_end(line, a);
    let c = token_start(line, b);
    let d = token_end(line, c);
    let e = token_start(line, d);
    if a < b && c < d && e == line.len() {
        match parse_location(line.subrange(a, b)) {
            Some(symbol) => if is_name(line.subrange(c, d)) {
                Some((line.subrange(c, d), symbol))
            } else {
                None
            },
            None => None,
        }
    } else {
        None
    }
}

/// The first index from `from` on that holds a line feed, or the length of `text`.
pub open spec fn line_end(text: Seq<char>, from: int) -> int
    decreases text.len() - from,
{
    if 0 <= from < text.len() && text[from] != '\n' {
        line_end(text, from + 1)
    } else {
        from
    }
}

/// A line ends at or after the index it starts from, and inside the text.
pub proof fn lemma_line_end_bounds(text: Seq<char>, from: int)
    requires
        0 <= from <= text.len(),
    ensures
        from <= line_end(text, from) <= text.len(),
        forall|i: int| from <= i < line_end(text, from) ==> text[i] != '\n',
        line_end(text, from) < text.len() ==> text[line_end(text, from)] == '\n',
    decreases text.len() - from,
{
    if from < text.len() && text[from] != '\n' {
        lemma_line_end_bounds(text, from + 1);
    }
}

/// `table` after the lines of `text` from index `from` on, taken in order:
/// a line that writes an entry defines its name anew, any other line is passed over.
pub open spec fn parse_lines_from(
    text: Seq<char>,
    from: int,
    table: Map<Seq<char>, Symbol>,
) -> Map<Seq<char>, Symbol>
    decreases text.len() + 1 - from,
{
    if 0 <= from < text.len() {
        let end = line_end(text, from);
        proof {
            lemma_line_end_bounds(text, from);
        }
        parse_lines_from(text, end + 1, with_line(table, text.subrange(from, end)))
    } else {
        table
    }
}

/// `table` after one more line.
pub open spec fn with_line(table: Map<Seq<char>, Symbol>, line: Seq<char>) -> Map<
    Seq<char>,
    Symbol,
> {
    match spec_parse_sym_line(line) {
        Some((name, symbol)) => table.insert(name, symbol),
        None => table,
    }
}

/// The table that a symbol listing writes.
pub open spec fn parse_sym_text(text: Seq<char>) -> Map<Seq<char>, Symbol> {
    parse_lines_from(text, 0, Map::empty())
}

/// Where no line feed stands in `from..at`, and `at` is the end of the text
/// or holds one, the line that starts at `from` ends at `at`.
pub proof fn lemma_line_end_is(text: Seq<char>, from: int, at: int)
    requires
        0 <= from <= at <= text.len(),
        forall|k: int| from <= k < at ==> text[k] != '\n',
        at < text.len() ==> text[at] == '\n',
    ensures
        line_end(text, from) == at,
    decreases at - from,
{
    if from < at {
        lemma_line_end_is(text, from + 1, at);
    }
}


/// A line without anything but space writes no entry.
pub proof fn lemma_empty_line_writes_nothing()
    ensures
        spec_parse_sym_line(Seq::empty()) is None,
{
}

/// What follows the last line feed of a text is its last line.
proof fn lemma_parse_last_line(
    text: Seq<char>,
    line: Seq<char>,
    table: Map<Seq<char>, Symbol>,
)
    requires
        forall|i: int| 0 <= i < line.len() ==> line[i] != '\n',
    ensures
        parse_lines_from(text + seq!['\n'] + line, text.len() as int + 1, table) == with_line(
            table,
            line,
        ),
{
    let full = text + seq!['\n'] + line;
    let from = text.len() as int + 1;
    if line.len() > 0 {
        assert forall|k: int| from <= k < full.len() implies full[k] != '\n' by {
            assert(full[k] == line[k - from]);
        }
        lemma_line_end_is(full, from, full.len() as int);
        assert(full.subrange(from, full.len() as int) =~= line);
        let after = with_line(table, line);
        assert(parse_lines_from(full, full.len() as int + 1, after) == after);
        assert(parse_lines_from(full, from, table) == parse_lines_from(
            full,
            full.len() as int + 1,
            after,
        ));
    } else {
        assert(line =~= Seq::<char>::empty());
        lemma_empty_line_writes_nothing();
        assert(from == full.len());
        assert(parse_lines_from(full, from, table) == table);
    }
}

proof fn lemma_parse_appended_line_from(
    text: Seq<char>,
    line: Seq<char>,
    from: int,
    table: Map<Seq<char>, Symbol>,
)
    requires
        0 <= from <= text.len(),
        forall|i: int| 0 <= i < line.len() ==> line[i] != '\n',
    ensures
        parse_lines_from(text + seq!['\n'] + line, from, table) == with_line(
            parse_lines_from(text, from, table),
            line,
        ),
    decreases text.len() + 1 - from,
{
    let full = text + seq!['\n'] + line;
    lemma_line_end_bounds(text, from);
    let end = line_end(text, from);
    assert(full[text.len() as int] == '\n');
    assert forall|k: int| from <= k < end implies full[k] != '\n' by {
        assert(full[k] == text[k]);
    }
    if end < text.len() {
        assert(full[end] == text[end]);
    }
    lemma_line_end_is(full, from, end);
    assert(full.subrange(from, end) =~= text.subrange(from, end));
    let next = with_line(table, text.subrange(from, end));
    assert(parse_lines_from(full, from, table) == parse_lines_from(full, end + 1, next));
    if from == text.len() {
        lemma_empty_line_writes_nothing();
        assert(text.subrange(from, end) =~= Seq::<char>::empty());
        assert(next == table);
        assert(parse_lines_from(text, from, table) == table);
        lemma_parse_last_line(text, line, table);
    } else if end < text.len() {
        assert(parse_lines_from(text, from, table) == parse_lines_from(text, end + 1, next));
        lemma_parse_appended_line_from(text, line, end + 1, next);
    } else {
        assert(parse_lines_from(text, end + 1, next) == next);
        assert(parse_lines_from(text, from, table) == parse_lines_from(text, end + 1, next));
        lemma_parse_last_line(text, line, next);
    }
}

/// A listing is read line by line, in order: with one more line at its end
/// it writes what it wrote before and then what that line writes. A line
/// that writes no entry changes nothing, and a line that defines a name
/// takes the place of every earlier definition of it.
pub proof fn lemma_parse_appended_line(text: Seq<char>, line: Seq<char>)
    requires
        forall|i: int| 0 <= i < line.len() ==> line[i] != '\n',
    ensures
        parse_sym_text(text + seq!['\n'] + line) == with_line(parse_sym_text(text), line),
        spec_parse_sym_line(line) is None ==> parse_sym_text(text + seq!['\n'] + line)
            == parse_sym_text(text),
        spec_parse_sym_line(line) matches Some((name, symbol)) ==> parse_sym_text(
            text + seq!['\n'] + line,
        ) == parse_sym_text(text).insert(name, symbol),
{
    lemma_parse_appended_line_from(text, line, 0, Map::empty());
}

/// The line `00:ABE2 sSaveVersion` defines `sSaveVersion` in bank `0x00` at `0xABE2`.
pub proof fn lemma_parse_example_line()
    ensures
        spec_parse_sym_line("00:ABE2 sSaveVersion"@) == Some(
            ("sSaveVersion"@, Symbol { bank: 0x00, address: 0xABE2 }),
        ),
{
    reveal_strlit("00:ABE2 sSaveVersion");
    reveal_strlit("sSaveVersion");
    let line = "00:ABE2 sSaveVersion"@;
    reveal_with_fuel(token_start, 2);
    reveal_with_fuel(token_end, 14);
    reveal_with_fuel(hex_value, 5);
    assert(token_start(line, 0) == 0);
    assert(token_end(line, 0) == 7);
    assert(token_start(line, 7) == 8);
    assert(token_end(line, 8) == 20);
    assert(token_start(line, 20) == 20);
    let location = line.subrange(0, 7);
    assert(location.subrange(0, 2) =~= seq!['0', '0']);
    assert(location.subrange(3, 7) =~= seq!['A', 'B', 'E', '2']);
    assert(hex_value(seq!['0', '0']) == 0) by {
        assert(seq!['0', '0'].drop_last() =~= seq!['0']);
        assert(seq!['0'].drop_last() =~= Seq::<char>::empty());
    }
    assert(hex_value(seq!['A', 'B', 'E', '2']) == 0xABE2) by {
        assert(seq!['A', 'B', 'E', '2'].drop_last() =~= seq!['A', 'B', 'E']);
        assert(seq!['A', 'B', 'E'].drop_last() =~= seq!['A', 'B']);
        assert(seq!['A', 'B'].drop_last() =~= seq!['A']);
        assert(seq!['A'].drop_last() =~= Seq::<char>::empty());
    }
    assert(line.subrange(8, 20) =~= "sSaveVersion"@);
}

fn is_space_char(c: char) -> (r: bool)
    ensures
        r == is_space(c),
{
    let n: u32 = c as u32;
    (0x09 <= n && n <= 0x0D) || n == 0x20 || n == 0x85 || n == 0xA0 || n == 0x1680 || (0x2000 <= n
        && n <= 0x200A) || n == 0x2028 || n == 0x2029 || n == 0x202F || n == 0x205F || n == 0x3000
}

fn hex_digit(c: char) -> (r: Option<u8>)
    ensures
        r == hex_digit_value(c),
{
    let n: u32 = c as u32;
    if 0x30 <= n && n <= 0x39 {
        Some((n - 0x30) as u8)
    } else if 0x41 <= n && n <= 0x46 {
        Some((n - 0x41 + 10) as u8)
    } else if 0x61 <= n && n <= 0x66 {
        Some((n - 0x61 + 10) as u8)
    } else {
        None
    }
}

fn is_name_character(c: char) -> (r: bool)
    ensures
        r == is_name_char(c),
{
    let n: u32 = c as u32;
    (0x30 <= n && n <= 0x39) || (0x41 <= n && n <= 0x5A) || (0x61 <= n && n <= 0x7A) || n == 0x5F
        || n == 0x2E
}

fn skip_spaces(line: &Vec<char>, from: usize) -> (r: usize)
    requires
        from <= line@.len(),
    ensures
        r == token_start(line@, from as int),
        from <= r <= line@.len(),
{
    let mut i: usize = from;
    while i < line.len() && is_space_char(line[i])
        invariant
            from <= i <= line@.len(),
            token_start(line@, from as int) == token_start(line@, i as int),
        decreases line@.len() - i,
    {
        i += 1;
    }
    i
}

fn skip_token(line: &Vec<char>, from: usize) -> (r: usize)
    requires
        from <= line@.len(),
    ensures
        r == token_end(line@, from as int),
        from <= r <= line@.len(),
{
    let mut i: usize = from;
    while i < line.len() && !is_space_char(line[i])
        invariant
            from <= i <= line@.len(),
            token_end(line@, from as int) == token_end(line@, i as int),
        decreases line@.len() - i,
    {
        i += 1;
    }
    i
}

/// A run of `count` hexadecimal digits writes a number below 16 to the `count`.
proof fn lemma_hex_value_bound(digits: Seq<char>)
    ensures
        digits.len() == 0 ==> hex_value(digits) == 0,
        digits.len() == 1 ==> hex_value(digits) < 0x10,
        digits.len() == 2 ==> hex_value(digits) < 0x100,
        digits.len() == 3 ==> hex_value(digits) < 0x1000,
        digits.len() == 4 ==> hex_value(digits) < 0x1_0000,
    decreases digits.len(),
{
    if digits.len() > 0 {
        lemma_hex_value_bound(digits.drop_last());
    }
}

/// Reads the `count` hexadecimal digits from `start` on, at most four of them.
fn read_hex(line: &Vec<char>, start: usize, count: usize) -> (r: Option<u16>)
    requires
        start + count <= line@.len(),
        count <= 4,
    ensures
        r == if all_hex(line@.subrange(start as int, start + count)) {
            Some(hex_value(line@.subrange(start as int, start + count)) as u16)
        } else {
            None::<u16>
        },
{
    let ghost digits = line@.subrange(start as int, start + count);
    let total: usize = line.len();
    let mut value: u32 = 0;
    let mut k: usize = 0;
    while k < count
        invariant
            k <= count <= 4,
            start + count <= total == line@.len(),
            digits == line@.subrange(start as int, start + count),
            all_hex(digits.subrange(0, k as int)),
            value == hex_value(digits.subrange(0, k as int)),
        decreases count - k,
    {
        proof {
            lemma_hex_value_bound(digits.subrange(0, k as int));
            assert(digits.subrange(0, k + 1).drop_last() =~= digits.subrange(0, k as int));
        }
        match hex_digit(line[start + k]) {
            Some(d) => {
                value = value * 16 + d as u32;
            },
            None => {
                assert(hex_digit_value(digits[k as int]) is None);
                return None;
            },
        }
        k += 1;
    }
    proof {
        assert(digits.subrange(0, k as int) =~= digits);
        lemma_hex_value_bound(digits);
    }
    Some(value as u16)
}

/// Reads the token `BB:AAAA` that stands at `start..end`.
fn read_location(line: &Vec<char>, start: usize, end: usize) -> (r: Option<Symbol>)
    requires
        start <= end <= line@.len(),
    ensures
        r == parse_location(line@.subrange(start as int, end as int)),
{
    let ghost token = line@.subrange(start as int, end as int);
    if end - start != 7 {
        return None;
    }
    proof {
        assert(token.subrange(0, 2) =~= line@.subrange(start as int, start + 2));
        assert(token.subrange(3, 7) =~= line@.subrange(start + 3, start + 3 + 4));
        lemma_hex_value_bound(token.subrange(0, 2));
    }
    let bank = match read_hex(line, start, 2) {
        Some(v) => v as u8,
        None => {
            return None;
        },
    };
    if line[start + 2] != ':' {
        return None;
    }
    let address = match read_hex(line, start + 3, 4) {
        Some(v) => v,
        None => {
            return None;
        },
    };
    Some(Symbol { bank, address })
}

/// Reads the name that stands at `start..end`.
fn read_name(line: &Vec<char>, start: usize, end: usize) -> (r: Option<String>)
    requires
        start < end <= line@.len(),
    ensures
        match r {
            Some(name) => is_name(line@.subrange(start as int, end as int)) && name@
                == line@.subrange(start as int, end as int),
            None => !is_name(line@.subrange(start as int, end as int)),
        },
{
    let ghost token = line@.subrange(start as int, end as int);
    let mut name = String::new();
    let mut i: usize = start;
    while i < end
        invariant
            start <= i <= end <= line@.len(),
            token == line@.subrange(start as int, end as int),
            name@ == line@.subrange(start as int, i as int),
            forall|k: int| 0 <= k < i - start ==> is_name_char(#[trigger] token[k]),
        decreases end - i,
    {
        let c = line[i];
        if !is_name_character(c) {
            assert(!is_name_char(token[i - start]));
            return None;
        }
        append_char(&mut name, c);
        i += 1;
        assert(name@ =~= line@.subrange(start as int, i as int));
    }
    Some(name)
}

/// Parses one line that is held as characters.
pub(crate) fn parse_line_chars(line: &Vec<char>) -> (r: Option<(String, Symbol)>)
    ensures
        match spec_parse_sym_line(line@) {
            Some((name, symbol)) => r matches Some((n, s)) && n@ == name && s == symbol,
            None => r is None,
        },
{
    let a = skip_spaces(line, 0);
    let b = skip_token(line, a);
    let c = skip_spaces(line, b);
    let d = skip_token(line, c);
    let e = skip_spaces(line, d);
    if !(a < b && c < d && e == line.len()) {
        return None;
    }
    let symbol = match read_location(line, a, b) {
        Some(symbol) => symbol,
        None => {
            return None;
        },
    };
    match read_name(line, c, d) {
        Some(name) => Some((name, symbol)),
        None => None,
    }
}

/// The characters of `text`, in order.
fn collect_chars(text: &str) -> (chars: Vec<char>)
    ensures
        chars@ == text@,
{
    let mut chars: Vec<char> = Vec::new();
    for c in it: text.chars()
        invariant
            it.seq() == text@,
            chars@ == text@.subrange(0, it.index() as int),
    {
        chars.push(c);
        assert(chars@ =~= text@.subrange(0, it.index() + 1));
    }
    assert(chars@ =~= text@);
    chars
}

/// Parses one line of a symbol listing: `BB:AAAA NAME`.
///
/// Returns `None` for a line that does not write an entry.
pub fn parse_sym_line(line: &str) -> (r: Option<(String, Symbol)>)
    ensures
        match spec_parse_sym_line(line@) {
            Some((name, symbol)) => r matches Some((n, s)) && n@ == name && s == symbol,
            None => r is None,
        },
{
    let chars = collect_chars(line);
    parse_line_chars(&chars)
}

} // verus!
