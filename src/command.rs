use crate::grid::Coordinate;
use vstd::prelude::*;

verus! {

/// ASCII code of the digit zero.
pub const ZERO: u8 = 48;

/// ASCII code of the digit nine.
pub const NINE: u8 = 57;

/// ASCII code of the space.
pub const SPACE: u8 = 32;

/// A command typed by the player.
#[derive(Clone, Copy, PartialEq, Eq, Structural, Debug)]
pub enum Command {
    /// `exit`: leave the game.
    Exit,
    /// `help`: show how to play.
    Help,
    /// `a`: fight the enemy on the player's cell.
    Attack,
    /// `x y`, two decimal numbers separated by one space: move there.
    MoveTo(Coordinate),
    /// Anything else.
    Unknown,
}

pub open spec fn is_digit(b: u8) -> bool {
    ZERO <= b <= NINE
}

/// Whether `s` is a non-empty run of decimal digits.
pub open spec fn all_digits(s: Seq<u8>) -> bool {
    s.len() > 0 && forall|i: int| 0 <= i < s.len() ==> is_digit(#[trigger] s[i])
}

/// The number that the decimal digits `s` spell.
pub open spec fn decimal_value(s: Seq<u8>) -> nat
    decreases s.len(),
{
    if s.len() == 0 {
        0
    } else {
        decimal_value(s.drop_last()) * 10 + (s.last() - ZERO) as nat
    }
}

/// Whether `s` is two runs of digits with a single space at `k` between them.
pub open spec fn splits_at(s: Seq<u8>, k: int) -> bool {
    &&& 0 <= k < s.len()
    &&& s[k] == SPACE
    &&& all_digits(s.subrange(0, k))
    &&& all_digits(s.subrange(k + 1, s.len() as int))
}

/// The command that the line `s` spells. The keywords are `exit`, `help`
/// and `a`, written here by their ASCII codes.
pub open spec fn command_of(s: Seq<u8>) -> Command {
    if s == seq![101u8, 120u8, 105u8, 116u8] {
        Command::Exit
    } else if s == seq![104u8, 101u8, 108u8, 112u8] {
        Command::Help
    } else if s == seq![97u8] {
        Command::Attack
    } else if exists|k: int| splits_at(s, k) {
        let k = choose|k: int| splits_at(s, k);
        let x = decimal_value(s.subrange(0, k));
        let y = decimal_value(s.subrange(k + 1, s.len() as int));
        if x <= usize::MAX && y <= usize::MAX {
            Command::MoveTo(Coordinate { x: x as usize, y: y as usize })
        } else {
            Command::Unknown
        }
    } else {
        Command::Unknown
    }
}

proof fn lemma_decimal_step(s: Seq<u8>, lo: int, i: int)
    requires
        0 <= lo <= i < s.len(),
    ensures
        decimal_value(s.subrange(lo, i + 1)) == decimal_value(s.subrange(lo, i)) * 10 + (s[i]
            - ZERO) as nat,
{
    assert(s.subrange(lo, i + 1).drop_last() =~= s.subrange(lo, i));
}

proof fn lemma_decimal_grows(s: Seq<u8>, lo: int, i: int, j: int)
    requires
        0 <= lo <= i <= j <= s.len(),
        forall|m: int| lo <= m < s.len() ==> is_digit(#[trigger] s[m]),
    ensures
        decimal_value(s.subrange(lo, i)) <= decimal_value(s.subrange(lo, j)),
    decreases j - i,
{
    if i < j {
        lemma_decimal_grows(s, lo, i, j - 1);
        lemma_decimal_step(s, lo, j - 1);
    }
}

/// The number that the digits `line[lo..hi]` spell, or `None` where it does
/// not fit in a `usize`.
fn parse_decimal(line: &[u8], lo: usize, hi: usize) -> (r: Option<usize>)
    requires
        lo <= hi <= line@.len(),
        forall|m: int| lo <= m < hi ==> is_digit(#[trigger] line@[m]),
    ensures
        match r {
            Some(v) => v == decimal_value(line@.subrange(lo as int, hi as int)),
            None => decimal_value(line@.subrange(lo as int, hi as int)) > usize::MAX,
        },
{
    let ghost s = line@.subrange(0, hi as int);
    let mut acc: usize = 0;
    let mut i: usize = lo;
    assert(s.subrange(lo as int, lo as int).len() == 0);
    while i < hi
        invariant
            lo <= i <= hi <= line@.len(),
            s == line@.subrange(0, hi as int),
            forall|m: int| lo <= m < hi ==> is_digit(#[trigger] line@[m]),
            acc == decimal_value(s.subrange(lo as int, i as int)),
        decreases hi - i,
    {
        let d = (line[i] - ZERO) as usize;
        proof {
            lemma_decimal_step(s, lo as int, i as int);
        }
        if acc > (usize::MAX - d) / 10 {
            proof {
                lemma_decimal_grows(s, lo as int, i as int + 1, hi as int);
                assert(s.subrange(lo as int, hi as int) =~= line@.subrange(lo as int, hi as int));
            }
            return None;
        }
        acc = acc * 10 + d;
        i = i + 1;
    }
    assert(s.subrange(lo as int, hi as int) =~= line@.subrange(lo as int, hi as int));
    Some(acc)
}

/// Reads one command from a line of input, trailing whitespace already removed.
pub fn parse_command(line: &[u8]) -> (r: Command)
    ensures
        r == command_of(line@),
{
    let n = line.len();
    if n == 4 && line[0] == 101u8 && line[1] == 120u8 && line[2] == 105u8 && line[3] == 116u8 {
        assert(line@ =~= seq![101u8, 120u8, 105u8, 116u8]);
        return Command::Exit;
    }
    if n == 4 && line[0] == 104u8 && line[1] == 101u8 && line[2] == 108u8 && line[3] == 112u8 {
        assert(line@ =~= seq![104u8, 101u8, 108u8, 112u8]);
        return Command::Help;
    }
    if n == 1 && line[0] == 97u8 {
        assert(line@ =~= seq![97u8]);
        return Command::Attack;
    }
    assert(line@ != seq![101u8, 120u8, 105u8, 116u8]);
    assert(line@ != seq![104u8, 101u8, 108u8, 112u8]);
    assert(line@ != seq![97u8]);
    // Everything up to the first non-digit must be the first number.
    let mut k: usize = 0;
    while k < n && is_ascii_digit(line[k])
        invariant
            k <= n == line@.len(),
            forall|m: int| 0 <= m < k ==> is_digit(#[trigger] line@[m]),
        decreases n - k,
    {
        k = k + 1;
    }
    if k == 0 || k == n || line[k] != SPACE {
        proof {
            lemma_no_split_before(line@, k as int);
        }
        return Command::Unknown;
    }
    let mut j: usize = k + 1;
    while j < n && is_ascii_digit(line[j])
        invariant
            k + 1 <= j <= n == line@.len(),
            forall|m: int| k < m < j ==> is_digit(#[trigger] line@[m]),
        decreases n - j,
    {
        j = j + 1;
    }
    if j == k + 1 || j < n {
        proof {
            lemma_no_split_after(line@, k as int, j as int);
        }
        return Command::Unknown;
    }
    proof {
        let s = line@;
        assert forall|i: int| 0 <= i < s.subrange(0, k as int).len() implies is_digit(
            #[trigger] s.subrange(0, k as int)[i],
        ) by {
            assert(is_digit(s[i]));
        }
        assert forall|i: int| 0 <= i < s.subrange(k + 1, n as int).len() implies is_digit(
            #[trigger] s.subrange(k + 1, n as int)[i],
        ) by {
            assert(is_digit(s[k + 1 + i]));
        }
        assert(splits_at(s, k as int));
        lemma_split_unique(s, k as int);
    }
    let x = parse_decimal(line, 0, k);
    let y = parse_decimal(line, k + 1, n);
    match (x, y) {
        (Some(x), Some(y)) => Command::MoveTo(Coordinate { x, y }),
        _ => Command::Unknown,
    }
}

fn is_ascii_digit(b: u8) -> (r: bool)
    ensures
        r == is_digit(b),
{
    ZERO <= b && b <= NINE
}

proof fn lemma_no_split_before(s: Seq<u8>, k: int)
    requires
        0 <= k <= s.len(),
        forall|m: int| 0 <= m < k ==> is_digit(#[trigger] s[m]),
        k == s.len() || !is_digit(s[k]),
        k == 0 || k == s.len() || s[k] != SPACE,
    ensures
        !exists|c: int| splits_at(s, c),
{
    assert forall|c: int| !splits_at(s, c) by {
        if splits_at(s, c) {
            if c < k {
                assert(is_digit(s[c]));
            } else if c > k {
                assert(s.subrange(0, c)[k] == s[k]);
            } else if k == 0 {
                assert(s.subrange(0, c).len() == 0);
            }
        }
    }
}

proof fn lemma_no_split_after(s: Seq<u8>, k: int, j: int)
    requires
        0 < k < s.len(),
        s[k] == SPACE,
        k + 1 <= j <= s.len(),
        forall|m: int| 0 <= m < k ==> is_digit(#[trigger] s[m]),
        forall|m: int| k < m < j ==> is_digit(#[trigger] s[m]),
        j == s.len() || !is_digit(s[j]),
        j == k + 1 || j < s.len(),
    ensures
        !exists|c: int| splits_at(s, c),
{
    assert forall|c: int| !splits_at(s, c) by {
        if splits_at(s, c) {
            if c < k {
                assert(is_digit(s[c]));
            } else if c > k {
                assert(s.subrange(0, c)[k] == s[k]);
            } else {
                let t = s.subrange(k + 1, s.len() as int);
                if j < s.len() {
                    assert(t[j - k - 1] == s[j]);
                } else {
                    assert(t.len() == 0);
                }
            }
        }
    }
}

proof fn lemma_split_unique(s: Seq<u8>, k: int)
    requires
        splits_at(s, k),
    ensures
        (choose|c: int| splits_at(s, c)) == k,
{
    let c = choose|c: int| splits_at(s, c);
    assert(splits_at(s, c));
    if c < k {
        assert(s.subrange(0, k)[c] == s[c]);
    } else if c > k {
        assert(s.subrange(0, c)[k] == s[k]);
    }
}

} // verus!
