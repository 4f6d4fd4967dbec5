//! Plain text: hexadecimal and decimal numerals, comparison and joining.

use vstd::prelude::*;
use vstd::string::StrSliceExecFns;
use vstd::string::StringExecFns;

verus! {

/// `String::push` appends one character to the end of the string.
pub assume_specification[ String::push ](s: &mut String, c: char)
    ensures
        final(s)@ == old(s)@.push(c),
;

/// The lower-case hexadecimal digit of a number below sixteen.
pub open spec fn hex_digit(n: int) -> char {
    if n < 10 {
        ('0' as int + n) as char
    } else {
        ('a' as int + (n - 10)) as char
    }
}

/// Whether a character is a lower-case hexadecimal digit.
pub open spec fn is_hex_digit(c: char) -> bool {
    '0' <= c && c <= '9' || 'a' <= c && c <= 'f'
}

/// Whether a text is made of lower-case hexadecimal digits alone.
pub open spec fn is_hex(s: Seq<char>) -> bool {
    forall|i: int| 0 <= i < s.len() ==> is_hex_digit(#[trigger] s[i])
}

/// Two lower-case hexadecimal digits for every byte, high half first.
pub open spec fn hex_text(bytes: Seq<u8>) -> Seq<char> {
    Seq::new(
        2 * bytes.len(),
        |i: int| hex_digit(if i % 2 == 0 { bytes[i / 2] as int / 16 } else { bytes[i / 2] as int % 16 }),
    )
}

/// The decimal numeral of `n`, without leading zeros.
pub open spec fn decimal(n: nat) -> Seq<char>
    decreases n,
{
    if n < 10 {
        seq![('0' as int + n) as char]
    } else {
        decimal(n / 10).push(('0' as int + n % 10) as char)
    }
}

/// The characters of an optional string.
pub open spec fn opt_text(s: Option<&str>) -> Option<Seq<char>> {
    match s {
        Some(t) => Some(t@),
        None => None,
    }
}

fn hex_char(n: u8) -> (c: char)
    requires
        n < 16,
    ensures
        c == hex_digit(n as int),
{
    if n < 10 {
        (48 + n) as char
    } else {
        (87 + n) as char
    }
}

/// Lower-case hexadecimal, two digits for each byte.
pub fn hex(bytes: &[u8]) -> (out: String)
    ensures
        out@ == hex_text(bytes@),
{
    let mut out = String::new();
    let mut i: usize = 0;
    while i < bytes.len()
        invariant
            i <= bytes@.len(),
            out@ =~= hex_text(bytes@).take(2 * i),
        decreases bytes@.len() - i,
    {
        let b: u8 = bytes[i];
        out.push(hex_char(b / 16));
        out.push(hex_char(b % 16));
        proof {
            assert((2 * i + 1) / 2 == i);
            assert((2 * i) / 2 == i);
        }
        i += 1;
    }
    out
}

/// The decimal numeral of `n`.
pub fn decimal_text(n: u64) -> (out: String)
    ensures
        out@ == decimal(n as nat),
    decreases n,
{
    if n < 10 {
        let mut out = String::new();
        out.push((48 + n as u8) as char);
        assert(out@ =~= decimal(n as nat));
        out
    } else {
        let mut out = decimal_text(n / 10);
        out.push((48 + (n % 10) as u8) as char);
        out
    }
}

/// Whether two strings hold the same characters.
pub fn same_text(a: &str, b: &str) -> (same: bool)
    ensures
        same == (a@ == b@),
{
    a.to_owned() == b.to_owned()
}

/// The two strings in a row.
pub fn join2(a: &str, b: &str) -> (out: String)
    ensures
        out@ == a@ + b@,
{
    let mut out = a.to_owned();
    out.append(b);
    out
}

/// The three strings in a row.
pub fn join3(a: &str, b: &str, c: &str) -> (out: String)
    ensures
        out@ == a@ + b@ + c@,
{
    let mut out = join2(a, b);
    out.append(c);
    out
}

/// A path inside a directory, as Unix paths join: an absolute path stands for
/// itself, and a slash is put between the two where the directory has none.
pub open spec fn joined_path(dir: Seq<char>, path: Seq<char>) -> Seq<char> {
    if path.len() > 0 && path[0] == '/' {
        path
    } else if dir.len() == 0 || dir.last() == '/' {
        dir + path
    } else {
        dir + "/"@ + path
    }
}

/// A path inside a directory, as Unix paths join.
pub fn join_path(dir: &str, path: &str) -> (out: String)
    ensures
        out@ == joined_path(dir@, path@),
{
    if !path.is_empty() && path.get_char(0) == '/' {
        path.to_owned()
    } else if dir.is_empty() || dir.get_char(dir.unicode_len() - 1) == '/' {
        join2(dir, path)
    } else {
        join3(dir, "/", path)
    }
}

/// Where the pieces of a path begin: behind the slash of an absolute path, behind
/// a leading single dot, else at once.
pub open spec fn pieces_at(path: Seq<char>) -> nat {
    if path.len() > 0 && (path[0] == '/' || path[0] == '.' && (path.len() == 1 || path[1] == '/')) {
        1
    } else {
        0
    }
}

/// Where the last piece of a path begins, if its pieces begin at `start`: behind
/// the last slash from there on.
pub open spec fn last_piece_at(path: Seq<char>, start: nat) -> nat
    decreases path.len(),
{
    if path.len() <= start {
        start
    } else if path.last() == '/' {
        path.len()
    } else {
        last_piece_at(path.drop_last(), start)
    }
}

/// The path without its last piece and the slash before that.
pub open spec fn without_last_piece(path: Seq<char>, start: nat) -> Seq<char> {
    let at = last_piece_at(path, start);
    path.take(if at > start { at - 1 } else { start as int })
}

/// Whether the last piece of a path counts for nothing: it is empty or a single
/// dot.
pub open spec fn ends_idle(path: Seq<char>, start: nat) -> bool {
    let piece = path.skip(last_piece_at(path, start) as int);
    piece.len() == 0 || piece == seq!['.']
}

/// The last piece begins within the path, and without it the path is shorter.
pub proof fn lemma_last_piece(path: Seq<char>, start: nat)
    requires
        start < path.len(),
    ensures
        start <= last_piece_at(path, start) <= path.len(),
        without_last_piece(path, start).len() < path.len(),
        start <= without_last_piece(path, start).len(),
    decreases path.len(),
{
    reveal_with_fuel(last_piece_at, 2);
    if path.last() != '/' && path.len() - 1 > start {
        lemma_last_piece(path.drop_last(), start);
    }
}

/// The path without the pieces at its end that count for nothing.
pub open spec fn trimmed(path: Seq<char>, start: nat) -> Seq<char>
    decreases path.len(),
{
    if path.len() > start && ends_idle(path, start) {
        proof {
            lemma_last_piece(path, start);
        }
        trimmed(without_last_piece(path, start), start)
    } else {
        path
    }
}

/// The directory that a path stands in, as Unix paths have it: the path without
/// its last piece. Empty pieces and single dots count for nothing, except for a
/// dot that a path begins with. The root and the empty path stand in none.
pub open spec fn parent_dir(path: Seq<char>) -> Option<Seq<char>> {
    let start = pieces_at(path);
    let whole = trimmed(path, start);
    if whole.len() > start {
        Some(trimmed(without_last_piece(whole, start), start))
    } else if path.len() > 0 && path[0] == '.' {
        Some(Seq::empty())
    } else {
        None
    }
}

fn last_piece(path: &str, n: usize, start: usize) -> (at: usize)
    requires
        start <= n <= path@.len(),
    ensures
        at == last_piece_at(path@.take(n as int), start as nat),
        start <= at <= n,
{
    let mut at: usize = n;
    while at > start && path.get_char(at - 1) != '/'
        invariant
            start <= at <= n <= path@.len(),
            last_piece_at(path@.take(n as int), start as nat) == last_piece_at(path@.take(at as int), start as nat),
        decreases at,
    {
        assert(path@.take(at as int).drop_last() =~= path@.take(at - 1));
        at -= 1;
    }
    at
}

/// How much of the first `n` characters is left without the last piece.
fn drop_piece(path: &str, n: usize, start: usize) -> (m: usize)
    requires
        start < n <= path@.len(),
    ensures
        path@.take(m as int) == without_last_piece(path@.take(n as int), start as nat),
        start <= m < n,
{
    proof {
        lemma_last_piece(path@.take(n as int), start as nat);
    }
    let at: usize = last_piece(path, n, start);
    let m: usize = if at > start { at - 1 } else { start };
    assert(path@.take(n as int).take(m as int) =~= path@.take(m as int));
    m
}

/// How much of the first `n` characters is left without the pieces at the end
/// that count for nothing.
fn trim_pieces(path: &str, n: usize, start: usize) -> (m: usize)
    requires
        start <= n <= path@.len(),
    ensures
        path@.take(m as int) == trimmed(path@.take(n as int), start as nat),
        start <= m <= n,
    decreases n,
{
    if n <= start {
        return n;
    }
    let at: usize = last_piece(path, n, start);
    let idle = at == n || (n - at == 1 && path.get_char(at) == '.');
    proof {
        let piece = path@.take(n as int).skip(at as int);
        assert(piece.len() == n - at);
        if n - at == 1 {
            assert(piece[0] == path@[at as int]);
            if path@[at as int] == '.' {
                assert(piece =~= seq!['.']);
            }
        }
        assert(idle == ends_idle(path@.take(n as int), start as nat));
    }
    if idle {
        let m: usize = drop_piece(path, n, start);
        trim_pieces(path, m, start)
    } else {
        n
    }
}

/// The directory that a path stands in, as Unix paths have it.
pub fn parent_of(path: &str) -> (r: Option<String>)
    ensures
        match r {
            Some(d) => parent_dir(path@) == Some(d@),
            None => parent_dir(path@) is None,
        },
{
    let len: usize = path.unicode_len();
    if len == 0 {
        return None;
    }
    let first = path.get_char(0);
    let start: usize = if first == '/' || (first == '.' && (len == 1 || path.get_char(1) == '/')) {
        1
    } else {
        0
    };
    assert(path@.take(len as int) =~= path@);
    let whole: usize = trim_pieces(path, len, start);
    if whole <= start {
        return if first == '.' {
            Some(String::new())
        } else {
            None
        };
    }
    let cut: usize = drop_piece(path, whole, start);
    let n: usize = trim_pieces(path, cut, start);
    let mut out = String::new();
    let mut i: usize = 0;
    while i < n
        invariant
            i <= n <= path@.len(),
            out@ == path@.take(i as int),
        decreases n - i,
    {
        out.push(path.get_char(i));
        assert(path@.take(i + 1) =~= path@.take(i as int).push(path@[i as int]));
        i += 1;
    }
    Some(out)
}

/// The number that a row of decimal digits writes down, read from the left.
pub open spec fn read_decimal(digits: Seq<char>) -> int
    decreases digits.len(),
{
    if digits.len() == 0 {
        0
    } else {
        10 * read_decimal(digits.drop_last()) + (digits.last() as int - '0' as int)
    }
}

/// A decimal numeral is made of digits alone, has no leading zero, and writes its
/// number down.
pub proof fn law_decimal_is_the_number(n: nat)
    ensures
        read_decimal(decimal(n)) == n,
        decimal(n).len() >= 1,
        forall|i: int| 0 <= i < decimal(n).len() ==> '0' <= #[trigger] decimal(n)[i] && decimal(n)[i] <= '9',
        decimal(n)[0] == '0' ==> n == 0,
    decreases n,
{
    let s = decimal(n);
    if n < 10 {
        assert(s.drop_last() =~= Seq::<char>::empty());
        assert(read_decimal(s.drop_last()) == 0);
    } else {
        law_decimal_is_the_number(n / 10);
        assert(s.drop_last() =~= decimal(n / 10));
        assert(s[0] == decimal(n / 10)[0]);
        assert forall|i: int| 0 <= i < s.len() implies '0' <= #[trigger] s[i] && s[i] <= '9' by {
            if i < s.len() - 1 {
                assert(s[i] == decimal(n / 10)[i]);
            }
        }
    }
}

/// Two numbers never share a decimal numeral.
pub proof fn law_decimal_tells_numbers_apart(a: nat, b: nat)
    ensures
        decimal(a) == decimal(b) <==> a == b,
{
    law_decimal_is_the_number(a);
    law_decimal_is_the_number(b);
}

/// Texts that agree once the same text stands before and behind them are the
/// same.
pub proof fn lemma_same_frame(head: Seq<char>, a: Seq<char>, b: Seq<char>, tail: Seq<char>)
    ensures
        head + a + tail == head + b + tail <==> a == b,
{
    if head + a + tail == head + b + tail {
        let x = head + a + tail;
        let y = head + b + tail;
        assert(x.len() == head.len() + a.len() + tail.len());
        assert(y.len() == head.len() + b.len() + tail.len());
        assert forall|i: int| 0 <= i < a.len() implies a[i] == b[i] by {
            assert(x[head.len() + i] == a[i]);
            assert(y[head.len() + i] == b[i]);
        }
        assert(a =~= b);
    }
}

/// Hexadecimal text gives every byte back: the digits at places `2 i` and
/// `2 i + 1` are lower-case hexadecimal digits whose values make up byte `i`.
pub proof fn law_hex_gives_the_bytes_back(bytes: Seq<u8>, i: int)
    requires
        0 <= i < bytes.len(),
    ensures
        hex_text(bytes).len() == 2 * bytes.len(),
        ({
            let high = hex_text(bytes)[2 * i] as int;
            let low = hex_text(bytes)[2 * i + 1] as int;
            &&& 48 <= high <= 57 || 97 <= high <= 102
            &&& 48 <= low <= 57 || 97 <= low <= 102
            &&& bytes[i] == 16 * (if high <= 57 { high - 48 } else { high - 87 }) + (if low <= 57 { low - 48 } else {
                low - 87
            })
        }),
{
    assert((2 * i) / 2 == i && (2 * i) % 2 == 0);
    assert((2 * i + 1) / 2 == i && (2 * i + 1) % 2 == 1);
    let b = bytes[i] as int;
    assert(0 <= b / 16 < 16 && 0 <= b % 16 < 16 && b == 16 * (b / 16) + b % 16);
}

/// A file in a directory: an absolute path stands for itself; else the path of
/// the file begins with the directory and ends with the file's, and between the
/// two stands one slash, or nothing where the directory is empty or ends in one.
pub proof fn law_joined_path_is_in_the_directory(dir: Seq<char>, path: Seq<char>)
    ensures
        ({
            let r = joined_path(dir, path);
            if path.len() > 0 && path[0] == '/' {
                r == path
            } else {
                let gap = r.len() - dir.len() - path.len();
                &&& r.take(dir.len() as int) == dir
                &&& r.skip(dir.len() + gap) == path
                &&& gap == if dir.len() == 0 || dir[dir.len() - 1] == '/' { 0int } else { 1int }
                &&& gap == 1 ==> r[dir.len() as int] == '/'
            }
        }),
{
    reveal_strlit("/");
    let r = joined_path(dir, path);
    if !(path.len() > 0 && path[0] == '/') {
        let gap = r.len() - dir.len() - path.len();
        assert(r.take(dir.len() as int) =~= dir);
        assert(r.skip(dir.len() + gap) =~= path);
    }
}

proof fn lemma_name_is_last_piece(path: Seq<char>, name: Seq<char>, start: nat)
    requires
        start + name.len() < path.len(),
        path.skip(path.len() - name.len()) == name,
        path[path.len() - name.len() - 1] == '/',
        forall|i: int| 0 <= i < name.len() ==> #[trigger] name[i] != '/',
    ensures
        last_piece_at(path, start) == path.len() - name.len(),
    decreases name.len(),
{
    let n = name.len() as int;
    if n > 0 {
        assert(path[path.len() - 1] == path.skip(path.len() - n)[n - 1]);
        assert(name[n - 1] != '/');
        assert(path.drop_last().skip(path.len() - n) =~= name.drop_last());
        assert forall|i: int| 0 <= i < name.drop_last().len() implies #[trigger] name.drop_last()[i] != '/' by {
            assert(name[i] != '/');
        }
        lemma_name_is_last_piece(path.drop_last(), name.drop_last(), start);
    }
}

/// A file stands in the directory that it was put in: the parent of a plain name
/// in a directory is the directory. A plain name is not empty, not a single dot,
/// and holds no slash; the directory is written without a slash or a dot at its
/// end.
pub proof fn law_parent_of_a_file_is_its_directory(dir: Seq<char>, name: Seq<char>)
    requires
        dir.len() > 0,
        dir[dir.len() - 1] != '/',
        dir[dir.len() - 1] != '.',
        name.len() > 0,
        name != seq!['.'],
        forall|i: int| 0 <= i < name.len() ==> #[trigger] name[i] != '/',
    ensures
        parent_dir(joined_path(dir, name)) == Some(dir),
{
    reveal_strlit("/");
    assert(name[0] != '/');
    let path = joined_path(dir, name);
    let start = pieces_at(path);
    assert(path.len() == dir.len() + 1 + name.len());
    assert(path.skip(path.len() - name.len()) =~= name);
    assert(path[0] == dir[0]);
    if dir.len() == 1 {
        assert(start == 0);
    }
    lemma_name_is_last_piece(path, name, start);
    assert(!ends_idle(path, start));
    assert(trimmed(path, start) == path);
    assert(without_last_piece(path, start) =~= dir);
    lemma_last_piece(dir, start);
    let at = last_piece_at(dir, start) as int;
    let piece = dir.skip(at);
    assert(at != dir.len()) by {
        lemma_piece_is_not_empty(dir, start);
    }
    assert(piece.last() == dir.last());
    assert(!ends_idle(dir, start));
}

proof fn lemma_piece_is_not_empty(path: Seq<char>, start: nat)
    requires
        start < path.len(),
        path.last() != '/',
    ensures
        last_piece_at(path, start) < path.len(),
{
    if start < path.len() - 1 {
        lemma_last_piece(path.drop_last(), start);
    } else {
        assert(last_piece_at(path.drop_last(), start) == start);
    }
}

} // verus!
