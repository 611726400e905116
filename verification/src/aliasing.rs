use vstd::prelude::*;

verus! {

/// One entry of the alias table: a literal token and what replaces it.
#[derive(Clone, Debug, PartialEq, Eq)]
pub struct Alias {
    pub token: Vec<char>,
    pub replacement: Vec<char>,
}

/// The characters that separate the tokens of a command: those with the
/// Unicode property `White_Space`.
pub open spec fn is_space(c: char) -> bool {
    let n = c as u32;
    ||| 0x09 <= n <= 0x0d
    ||| n == 0x20
    ||| n == 0x85
    ||| n == 0xa0
    ||| n == 0x1680
    ||| 0x2000 <= n <= 0x200a
    ||| n == 0x2028
    ||| n == 0x2029
    ||| n == 0x202f
    ||| n == 0x205f
    ||| n == 0x3000
}

/// The first position at or after `from` whose character is not of the
/// given kind, or the length where there is none.
pub open spec fn skip(s: Seq<char>, from: int, spaces: bool) -> int
    decreases s.len() - from,
{
    if from < 0 || from >= s.len() || is_space(s[from]) != spaces {
        from
    } else {
        skip(s, from + 1, spaces)
    }
}

/// Where the first token of a command begins.
pub open spec fn token_start(command: Seq<char>) -> int {
    skip(command, 0, true)
}

/// Where the first token of a command ends.
pub open spec fn token_end(command: Seq<char>) -> int {
    skip(command, token_start(command), false)
}

/// What the first entry for a token, from position `from` on, puts in
/// its place.
pub open spec fn lookup(table: Seq<Alias>, token: Seq<char>, from: int) -> Option<Seq<char>>
    decreases table.len() - from,
{
    if from < 0 || from >= table.len() {
        None
    } else if table[from].token@ == token {
        Some(table[from].replacement@)
    } else {
        lookup(table, token, from + 1)
    }
}

/// The command as it is stored: its first token replaced once, if the
/// table knows it.
pub open spec fn aliased(command: Seq<char>, table: Seq<Alias>) -> Seq<char> {
    let start = token_start(command);
    let end = token_end(command);
    match lookup(table, command.subrange(start, end), 0) {
        Some(replacement) => command.subrange(0, start) + replacement + command.subrange(
            end,
            command.len() as int,
        ),
        None => command,
    }
}

/// Tells whether a character separates tokens.
pub fn space(c: char) -> (r: bool)
    ensures
        r == is_space(c),
{
    let n: u32 = c as u32;
    (0x09 <= n && n <= 0x0d) || n == 0x20 || n == 0x85 || n == 0xa0 || n == 0x1680 || (0x2000 <= n
        && n <= 0x200a) || n == 0x2028 || n == 0x2029 || n == 0x202f || n == 0x205f || n == 0x3000
}

fn skip_from(s: &Vec<char>, from: usize, spaces: bool) -> (r: usize)
    requires
        from <= s@.len(),
    ensures
        r == skip(s@, from as int, spaces),
        from <= r <= s@.len(),
{
    let mut i: usize = from;
    while i < s.len() && space(s[i]) == spaces
        invariant
            from <= i <= s@.len(),
            skip(s@, i as int, spaces) == skip(s@, from as int, spaces),
        decreases s@.len() - i,
    {
        i += 1;
    }
    i
}

fn same_chars(a: &Vec<char>, b: &Vec<char>, start: usize, end: usize) -> (r: bool)
    requires
        start <= end <= b@.len(),
    ensures
        r == (a@ == b@.subrange(start as int, end as int)),
{
    if a.len() != end - start {
        return false;
    }
    let mut i: usize = 0;
    while i < a.len()
        invariant
            start <= end <= b@.len(),
            a@.len() == end - start,
            i <= a@.len(),
            forall|j: int| 0 <= j < i ==> a@[j] == b@[start + j],
        decreases a@.len() - i,
    {
        if a[i] != b[start + i] {
            proof {
                assert(b@.subrange(start as int, end as int)[i as int] == b@[start + i]);
            }
            return false;
        }
        i += 1;
    }
    proof {
        assert(a@ =~= b@.subrange(start as int, end as int));
    }
    true
}

fn append_range(out: &mut Vec<char>, s: &Vec<char>, start: usize, end: usize)
    requires
        start <= end <= s@.len(),
    ensures
        final(out)@ == old(out)@ + s@.subrange(start as int, end as int),
{
    let mut i: usize = start;
    while i < end
        invariant
            start <= i <= end <= s@.len(),
            out@ == old(out)@ + s@.subrange(start as int, i as int),
        decreases end - i,
    {
        out.push(s[i]);
        proof {
            assert(out@ =~= old(out)@ + s@.subrange(start as int, i + 1));
        }
        i += 1;
    }
    proof {
        assert(s@.subrange(start as int, start as int) =~= Seq::<char>::empty());
    }
}

/// Replaces the first token of a submitted command by what the alias
/// table holds for it. This is done once, when a command is submitted.
pub fn apply_alias(command: &Vec<char>, table: &Vec<Alias>) -> (r: Vec<char>)
    ensures
        r@ == aliased(command@, table@),
{
    let start = skip_from(command, 0, true);
    let end = skip_from(command, start, false);
    let mut out: Vec<char> = Vec::new();
    let mut k: usize = 0;
    while k < table.len()
        invariant
            k <= table@.len(),
            start <= end <= command@.len(),
            start == token_start(command@),
            end == token_end(command@),
            out@ == Seq::<char>::empty(),
            lookup(table@, command@.subrange(start as int, end as int), k as int) == lookup(
                table@,
                command@.subrange(start as int, end as int),
                0,
            ),
        decreases table@.len() - k,
    {
        if same_chars(&table[k].token, command, start, end) {
            append_range(&mut out, command, 0, start);
            append_range(&mut out, &table[k].replacement, 0, table[k].replacement.len());
            append_range(&mut out, command, end, command.len());
            proof {
                let rep = table@[k as int].replacement@;
                assert(rep.subrange(0, rep.len() as int) =~= rep);
                assert(out@ =~= command@.subrange(0, start as int) + rep + command@.subrange(
                    end as int,
                    command@.len() as int,
                ));
            }
            return out;
        }
        k += 1;
    }
    append_range(&mut out, command, 0, command.len());
    proof {
        assert(command@.subrange(0, command@.len() as int) =~= command@);
        assert(out@ =~= command@);
    }
    out
}

} // verus!
