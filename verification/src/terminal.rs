//! The output buffer of a terminal that runs a command on the agent's behalf.

use vstd::prelude::*;
use vstd::std_specs::iter::IteratorSpec;
use vstd::utf8::{encode_utf8, encode_scalar};

use vstd::string::StrSliceExecFns;

use crate::model::opt_str;
use crate::seqs::{first_match, lemma_first_match, lemma_first_match_is};

verus! {

broadcast use vstd::string::group_string_axioms;

/// The characters of a string, in order.
pub fn chars_of(s: &str) -> (res: Vec<char>)
    ensures
        res@ == s@,
{
    let mut res: Vec<char> = Vec::new();
    for c in iter: s.chars()
        invariant
            res@ == iter.seq().take(iter.index() as int),
            iter.seq() == s@,
    {
        res.push(c);
    }
    res
}

/// The number of bytes of a character's UTF-8 encoding.
pub open spec fn char_width(c: char) -> nat {
    if (c as u32) < 0x80 {
        1
    } else if (c as u32) < 0x800 {
        2
    } else if (c as u32) < 0x10000 {
        3
    } else {
        4
    }
}

/// The number of bytes of a text's UTF-8 encoding.
pub open spec fn utf8_len(s: Seq<char>) -> nat
    decreases s.len(),
{
    if s.len() == 0 {
        0
    } else {
        utf8_len(s.drop_last()) + char_width(s.last())
    }
}

pub proof fn lemma_utf8_len_concat(a: Seq<char>, b: Seq<char>)
    ensures
        utf8_len(a + b) == utf8_len(a) + utf8_len(b),
    decreases b.len(),
{
    if b.len() > 0 {
        assert((a + b).drop_last() =~= a + b.drop_last());
        lemma_utf8_len_concat(a, b.drop_last());
    } else {
        assert(a + b =~= a);
    }
}

/// `utf8_len` counts the bytes that UTF-8 encoding produces.
pub proof fn lemma_utf8_len_is_encoded_len(s: Seq<char>)
    ensures
        utf8_len(s) == encode_utf8(s).len(),
    decreases s.len(),
{
    if s.len() > 0 {
        let c = s[0];
        vstd::utf8::char_is_scalar(c);
        assert(encode_scalar(c as u32).len() == char_width(c));
        lemma_utf8_len_concat(seq![c], s.drop_first());
        assert(seq![c] + s.drop_first() =~= s);
        assert(seq![c].drop_last() =~= Seq::<char>::empty());
        assert(utf8_len(Seq::<char>::empty()) == 0);
        assert(utf8_len(seq![c]) == char_width(c));
        lemma_utf8_len_is_encoded_len(s.drop_first());
        assert(encode_utf8(s) == encode_scalar(s[0] as u32) + encode_utf8(s.drop_first()));
    }
}

pub proof fn lemma_utf8_len_split(s: Seq<char>, i: int)
    requires
        0 <= i <= s.len(),
    ensures
        utf8_len(s) == utf8_len(s.take(i)) + utf8_len(s.skip(i)),
{
    lemma_utf8_len_concat(s.take(i), s.skip(i));
    assert(s.take(i) + s.skip(i) =~= s);
}

pub proof fn lemma_utf8_len_step(s: Seq<char>, k: int)
    requires
        0 <= k < s.len(),
    ensures
        utf8_len(s.take(k + 1)) == utf8_len(s.take(k)) + char_width(s[k]),
{
    assert(s.take(k + 1).drop_last() =~= s.take(k));
}

pub fn utf8_width(c: char) -> (res: usize)
    ensures
        res == char_width(c),
{
    let v = c as u32;
    if v < 0x80 {
        1
    } else if v < 0x800 {
        2
    } else if v < 0x10000 {
        3
    } else {
        4
    }
}

/// The number of bytes of the UTF-8 encoding of the characters.
pub fn utf8_len_of(chars: &Vec<char>) -> (res: u128)
    ensures
        res == utf8_len(chars@),
{
    let mut total: u128 = 0;
    let mut i: usize = 0;
    assert(chars@.take(0) =~= Seq::<char>::empty());
    while i < chars.len()
        invariant
            0 <= i <= chars.len(),
            total == utf8_len(chars@.take(i as int)),
            total <= 4 * i,
        decreases chars.len() - i,
    {
        proof {
            lemma_utf8_len_step(chars@, i as int);
        }
        total = total + utf8_width(chars[i]) as u128;
        i = i + 1;
    }
    assert(chars@.take(chars.len() as int) =~= chars@);
    total
}

/// The index of the first newline, or `s.len()`.
pub open spec fn first_newline(s: Seq<char>) -> int {
    first_match(s, |c: char| c == '\n')
}

/// The fewest leading characters, counted from `k`, whose bytes reach `excess`.
pub open spec fn cut_from(s: Seq<char>, excess: nat, k: int) -> int
    decreases s.len() - k,
{
    if k >= s.len() || utf8_len(s.take(k)) >= excess {
        k
    } else {
        cut_from(s, excess, k + 1)
    }
}

/// Output over the byte limit loses its front, whole lines first; a last line that is
/// still too long loses the fewest leading characters that bring it under the limit.
pub open spec fn trim_front(s: Seq<char>, limit: nat) -> Seq<char>
    decreases s.len(),
{
    if utf8_len(s) <= limit {
        s
    } else {
        let i = first_newline(s);
        if 0 <= i && i + 1 < s.len() {
            trim_front(s.skip(i + 1), limit)
        } else {
            s.skip(cut_from(s, (utf8_len(s) - limit) as nat, 0))
        }
    }
}

pub proof fn lemma_utf8_len_prefix(s: Seq<char>, i: int)
    requires
        0 <= i <= s.len(),
    ensures
        utf8_len(s.take(i)) <= utf8_len(s),
{
    lemma_utf8_len_split(s, i);
}

proof fn lemma_cut_from(s: Seq<char>, excess: nat, k: int)
    requires
        0 <= k <= s.len(),
        excess <= utf8_len(s),
    ensures
        k <= cut_from(s, excess, k) <= s.len(),
        utf8_len(s.take(cut_from(s, excess, k))) >= excess,
    decreases s.len() - k,
{
    if k >= s.len() {
        assert(s.take(k) =~= s);
    } else if utf8_len(s.take(k)) < excess {
        lemma_cut_from(s, excess, k + 1);
    }
}

/// Trimming keeps a suffix of the output, and what it keeps fits the byte limit.
pub proof fn lemma_trim_front_bounded(s: Seq<char>, limit: nat)
    ensures
        utf8_len(trim_front(s, limit)) <= limit,
        exists|k: int| 0 <= k <= s.len() && trim_front(s, limit) == s.skip(k),
    decreases s.len(),
{
    if utf8_len(s) <= limit {
        assert(s.skip(0) =~= s);
    } else {
        let i = first_newline(s);
        if 0 <= i && i + 1 < s.len() {
            let rest = s.skip(i + 1);
            lemma_trim_front_bounded(rest, limit);
            let k = choose|k: int| 0 <= k <= rest.len() && trim_front(rest, limit) == rest.skip(k);
            assert(rest.skip(k) =~= s.skip(i + 1 + k));
        } else {
            let excess = (utf8_len(s) - limit) as nat;
            lemma_cut_from(s, excess, 0);
            let k = cut_from(s, excess, 0);
            lemma_utf8_len_split(s, k);
        }
    }
}

/// Trimming drops whole lines first: what it keeps starts the output, or starts right
/// after a newline, or is the tail of the output's last line (a line with no newline
/// before its final character).
pub proof fn lemma_trim_front_whole_lines(s: Seq<char>, limit: nat)
    ensures
        exists|k: int|
            0 <= k <= s.len() && #[trigger] trim_front(s, limit) == s.skip(k) && (k == 0 || s[k - 1]
                == '\n' || forall|j: int|
                0 <= j < s.len() - k - 1 ==> s.skip(k)[j] != '\n'),
    decreases s.len(),
{
    let p = |c: char| c == '\n';
    if utf8_len(s) <= limit {
        assert(s.skip(0) =~= s);
        assert(trim_front(s, limit) == s.skip(0));
    } else {
        let i = first_newline(s);
        lemma_first_match(s, p);
        if 0 <= i && i + 1 < s.len() {
            let rest = s.skip(i + 1);
            lemma_trim_front_whole_lines(rest, limit);
            let k = choose|k: int|
                0 <= k <= rest.len() && #[trigger] trim_front(rest, limit) == rest.skip(k) && (k
                    == 0 || rest[k - 1] == '\n' || forall|j: int|
                    0 <= j < rest.len() - k - 1 ==> rest.skip(k)[j] != '\n');
            assert(rest.skip(k) =~= s.skip(i + 1 + k));
            assert(trim_front(s, limit) == s.skip(i + 1 + k));
            if k == 0 {
                assert(s[i] == '\n');
            } else if rest[k - 1] == '\n' {
                assert(s[i + 1 + k - 1] == rest[k - 1]);
            } else {
                let kept = s.skip(i + 1 + k);
                assert forall|j: int| 0 <= j < s.len() - (i + 1 + k) - 1 implies #[trigger] kept[j]
                    != '\n' by {
                    assert(s.skip(i + 1 + k)[j] == rest.skip(k)[j]);
                }
            }
        } else {
            let excess = (utf8_len(s) - limit) as nat;
            lemma_cut_from(s, excess, 0);
            let k = cut_from(s, excess, 0);
            assert(trim_front(s, limit) == s.skip(k));
            let kept = s.skip(k);
            assert forall|j: int| 0 <= j < s.len() - k - 1 implies #[trigger] kept[j] != '\n' by {
                assert(s.skip(k)[j] == s[k + j]);
                assert(!p(s[k + j]));
            }
        }
    }
}

/// Trimming drops no more than it must: output that fits is kept whole; every line
/// that starts before what is kept (the output's first line among them) would not have
/// fit with all that follows it; and where the kept part starts inside a line, keeping
/// one character more would not have fit.
pub proof fn lemma_trim_front_drops_no_more_than_needed(s: Seq<char>, limit: nat)
    ensures
        utf8_len(s) <= limit ==> trim_front(s, limit) == s,
        exists|k: int|
            0 <= k <= s.len() && trim_front(s, limit) == #[trigger] s.skip(k) && (forall|j: int|
                0 <= j < k && (j == 0 || s[j - 1] == '\n') ==> utf8_len(#[trigger] s.skip(j)) > limit)
                && (0 < k && s[k - 1] != '\n' ==> utf8_len(s.skip(k - 1)) > limit),
    decreases s.len(),
{
    let p = |c: char| c == '\n';
    if utf8_len(s) <= limit {
        assert(s.skip(0) =~= s);
        assert(trim_front(s, limit) == s.skip(0));
    } else {
        assert(s.skip(0) =~= s);
        let i = first_newline(s);
        lemma_first_match(s, p);
        if 0 <= i && i + 1 < s.len() {
            let rest = s.skip(i + 1);
            lemma_trim_front_drops_no_more_than_needed(rest, limit);
            let k = choose|k: int|
                0 <= k <= rest.len() && trim_front(rest, limit) == #[trigger] rest.skip(k) && (forall|j: int|
                    0 <= j < k && (j == 0 || rest[j - 1] == '\n') ==> utf8_len(#[trigger] rest.skip(j))
                        > limit) && (0 < k && rest[k - 1] != '\n' ==> utf8_len(rest.skip(k - 1)) > limit);
            assert(rest.skip(k) =~= s.skip(i + 1 + k));
            assert(trim_front(s, limit) == s.skip(i + 1 + k));
            assert forall|j: int| 0 <= j < i + 1 + k && (j == 0 || s[j - 1] == '\n') implies utf8_len(
                #[trigger] s.skip(j),
            ) > limit by {
                if j > 0 {
                    if j <= i {
                        assert(!p(s[j - 1]));
                    } else {
                        let jj = j - (i + 1);
                        assert(rest.skip(jj) =~= s.skip(j));
                        if jj > 0 {
                            assert(rest[jj - 1] == s[j - 1]);
                        }
                    }
                }
            }
            if 0 < i + 1 + k && s[i + 1 + k - 1] != '\n' {
                assert(k > 0);
                assert(rest[k - 1] == s[i + 1 + k - 1]);
                assert(rest.skip(k - 1) =~= s.skip(i + 1 + k - 1));
            }
        } else {
            let excess = (utf8_len(s) - limit) as nat;
            lemma_cut_from(s, excess, 0);
            let k = cut_from(s, excess, 0);
            assert(trim_front(s, limit) == s.skip(k));
            assert forall|j: int| 0 <= j < k && (j == 0 || s[j - 1] == '\n') implies utf8_len(
                #[trigger] s.skip(j),
            ) > limit by {
                if j > 0 {
                    assert(!p(s[j - 1]));
                }
            }
            if 0 < k && s[k - 1] != '\n' {
                lemma_cut_fewest(s, excess, 0);
                lemma_utf8_len_split(s, k - 1);
            }
        }
    }
}

/// Cutting from `k` stops at the first index whose prefix reaches the excess.
proof fn lemma_cut_fewest(s: Seq<char>, excess: nat, k: int)
    requires
        0 <= k <= s.len(),
        k == 0 || utf8_len(s.take(k - 1)) < excess,
    ensures
        cut_from(s, excess, k) > 0 ==> utf8_len(s.take(cut_from(s, excess, k) - 1)) < excess,
    decreases s.len() - k,
{
    if !(k >= s.len() || utf8_len(s.take(k)) >= excess) {
        lemma_cut_fewest(s, excess, k + 1);
    }
}

/// The output a terminal keeps when the agent names no limit.
pub const DEFAULT_OUTPUT_BYTE_LIMIT: usize = 65536;

/// The byte limit of a terminal: the one the agent asks for if the platform can hold
/// it, else the default.
pub fn output_byte_limit(requested: Option<u64>) -> (res: usize)
    ensures
        res == match requested {
            Some(limit) => if limit <= usize::MAX {
                limit as usize
            } else {
                DEFAULT_OUTPUT_BYTE_LIMIT
            },
            None => DEFAULT_OUTPUT_BYTE_LIMIT,
        },
{
    match requested {
        Some(limit) => if limit as u128 <= usize::MAX as u128 {
            limit as usize
        } else {
            DEFAULT_OUTPUT_BYTE_LIMIT
        },
        None => DEFAULT_OUTPUT_BYTE_LIMIT,
    }
}

/// How a command ended.
#[derive(Debug, Default, PartialEq, Eq)]
pub struct TerminalExit {
    pub exit_code: Option<u32>,
    pub signal: Option<String>,
}

impl Clone for TerminalExit {
    fn clone(&self) -> (res: Self)
        ensures
            res.exit_code == self.exit_code,
            opt_str(res.signal) == opt_str(self.signal),
    {
        TerminalExit {
            exit_code: self.exit_code,
            signal: match &self.signal {
                Some(signal) => Some(signal.clone()),
                None => None,
            },
        }
    }
}

/// What a terminal has printed, bounded by a byte limit, and how it ended.
#[derive(Debug, Default)]
pub struct Terminal {
    pub output: String,
    /// Whether output was ever dropped to stay under the limit.
    pub truncated: bool,
    pub byte_limit: usize,
    pub exit: Option<TerminalExit>,
}

impl Terminal {
    pub fn new(byte_limit: usize) -> (res: Self)
        ensures
            res.output@.len() == 0,
            !res.truncated,
            res.byte_limit == byte_limit,
            res.exit.is_none(),
    {
        Terminal { output: String::new(), truncated: false, byte_limit, exit: None }
    }

    /// Appends a chunk of output. A terminal is read from its tail, so output over the
    /// limit is dropped from the front, whole lines first.
    pub fn push(&mut self, chunk: &str)
        ensures
            final(self).output@ == trim_front(old(self).output@ + chunk@, old(self).byte_limit as nat),
            final(self).truncated == (old(self).truncated || utf8_len(old(self).output@ + chunk@)
                > old(self).byte_limit),
            final(self).byte_limit == old(self).byte_limit,
            final(self).exit == old(self).exit,
    {
        self.output.append(chunk);
        let ghost s = self.output@;
        let limit = self.byte_limit as u128;
        let chars = chars_of(self.output.as_str());
        let n = chars.len();
        let total = utf8_len_of(&chars);
        if total <= limit {
            return;
        }
        self.truncated = true;
        let mut start: usize = 0;
        let mut remaining: u128 = total;
        assert(s.skip(0) =~= s);
        loop
            invariant_except_break
                remaining == utf8_len(s.skip(start as int)),
                remaining <= total,
                trim_front(s.skip(start as int), limit as nat) == trim_front(s, limit as nat),
            invariant
                0 <= start <= n,
                n == s.len(),
                chars@ == s,
                total == utf8_len(s),
                limit == self.byte_limit,
            ensures
                0 <= start <= n,
                trim_front(s, limit as nat) == s.skip(start as int),
            decreases n - start,
        {
            let ghost rest = s.skip(start as int);
            if remaining <= limit {
                break;
            }
            // Look for the first newline of what is left.
            let mut j: usize = start;
            let mut line_width: u128 = 0;
            assert(rest.take(0) =~= Seq::<char>::empty());
            while j < n && chars[j] != '\n'
                invariant
                    start <= j <= n,
                    n == s.len(),
                    chars@ == s,
                    rest == s.skip(start as int),
                    remaining == utf8_len(rest),
                    remaining <= total,
                    line_width == utf8_len(rest.take(j - start)),
                    forall|q: int| 0 <= q < j - start ==> rest[q] != '\n',
                decreases n - j,
            {
                proof {
                    lemma_utf8_len_step(rest, j - start);
                    lemma_utf8_len_prefix(rest, j - start + 1);
                }
                line_width = line_width + utf8_width(chars[j]) as u128;
                j = j + 1;
            }
            proof {
                lemma_first_match_is(rest, |c: char| c == '\n', j - start);
            }
            if j < n && j + 1 < n {
                proof {
                    let i = j - start;
                    lemma_utf8_len_step(rest, i);
                    lemma_utf8_len_split(rest, i + 1);
                    assert(rest.skip(i + 1) =~= s.skip(j + 1));
                }
                start = j + 1;
                remaining = remaining - (line_width + 1);
            } else {
                // The last line alone is too long: drop the fewest leading characters.
                let excess = remaining - limit;
                let mut k: usize = start;
                let mut dropped: u128 = 0;
                while k < n && dropped < excess
                    invariant
                        start <= k <= n,
                        n == s.len(),
                        chars@ == s,
                        rest == s.skip(start as int),
                        remaining == utf8_len(rest),
                        remaining <= total,
                        excess <= remaining,
                        dropped == utf8_len(rest.take(k - start)),
                        cut_from(rest, excess as nat, k - start) == cut_from(rest, excess as nat, 0),
                    decreases n - k,
                {
                    proof {
                        lemma_utf8_len_step(rest, k - start);
                        lemma_utf8_len_prefix(rest, k - start + 1);
                    }
                    dropped = dropped + utf8_width(chars[k]) as u128;
                    k = k + 1;
                }
                assert(cut_from(rest, excess as nat, k - start) == k - start);
                assert(rest.skip(k - start) =~= s.skip(k as int));
                start = k;
                break;
            }
        }
        let kept = self.output.as_str().substring_char(start, n).to_owned();
        assert(kept@ =~= s.skip(start as int));
        self.output = kept;
    }

    /// Records how the command ended.
    pub fn finish(&mut self, exit: TerminalExit)
        ensures
            final(self).exit == Some(exit),
            final(self).output == old(self).output,
            final(self).truncated == old(self).truncated,
            final(self).byte_limit == old(self).byte_limit,
    {
        self.exit = Some(exit);
    }
}

} // verus!
