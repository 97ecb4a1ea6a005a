//! The nucleotide alphabet, whitespace trimming, and the guess at a file's
//! format from its first lines.

use vstd::prelude::*;
use vstd::std_specs::iter::IteratorSpec;

verus! {

/// The code of a raw sequence byte: 1, 2, 3, 4 for `A`, `C`, `G`, `T` in either
/// case, and 0 for every other byte.
pub open spec fn base_code(x: u8) -> u8 {
    if x == 65 || x == 97 {
        1
    } else if x == 67 || x == 99 {
        2
    } else if x == 71 || x == 103 {
        3
    } else if x == 84 || x == 116 {
        4
    } else {
        0
    }
}

/// The code of the complementary base: `A` and `T` change places, and so do
/// `C` and `G`. Any other value is left as it is.
pub open spec fn complement_code(code: u8) -> u8 {
    if 1 <= code <= 4 {
        (5 - code) as u8
    } else {
        code
    }
}

/// The code of each byte value, indexed by the byte.
pub const LOOKUP_TABLE: [u8; 256] = [
    0, 0, 0, 0, 0, 0, 0, 0, 0, 0, 0, 0, 0, 0, 0, 0, 0, 0, 0, 0, 0, 0, 0, 0, 0, 0, 0, 0, 0, 0, 0, 0,
    0, 0, 0, 0, 0, 0, 0, 0, 0, 0, 0, 0, 0, 0, 0, 0, 0, 0, 0, 0, 0, 0, 0, 0, 0, 0, 0, 0, 0, 0, 0, 0,
    0, 1, 0, 2, 0, 0, 0, 3, 0, 0, 0, 0, 0, 0, 0, 0, 0, 0, 0, 0, 4, 0, 0, 0, 0, 0, 0, 0, 0, 0, 0, 0,
    0, 1, 0, 2, 0, 0, 0, 3, 0, 0, 0, 0, 0, 0, 0, 0, 0, 0, 0, 0, 4, 0, 0, 0, 0, 0, 0, 0, 0, 0, 0, 0,
    0, 0, 0, 0, 0, 0, 0, 0, 0, 0, 0, 0, 0, 0, 0, 0, 0, 0, 0, 0, 0, 0, 0, 0, 0, 0, 0, 0, 0, 0, 0, 0,
    0, 0, 0, 0, 0, 0, 0, 0, 0, 0, 0, 0, 0, 0, 0, 0, 0, 0, 0, 0, 0, 0, 0, 0, 0, 0, 0, 0, 0, 0, 0, 0,
    0, 0, 0, 0, 0, 0, 0, 0, 0, 0, 0, 0, 0, 0, 0, 0, 0, 0, 0, 0, 0, 0, 0, 0, 0, 0, 0, 0, 0, 0, 0, 0,
    0, 0, 0, 0, 0, 0, 0, 0, 0, 0, 0, 0, 0, 0, 0, 0, 0, 0, 0, 0, 0, 0, 0, 0, 0, 0, 0, 0, 0, 0, 0, 0,
];

/// The code of the complement of each byte value, indexed by the byte.
pub const RC_LOOKUP_TABLE: [u8; 256] = [
    0, 0, 0, 0, 0, 0, 0, 0, 0, 0, 0, 0, 0, 0, 0, 0, 0, 0, 0, 0, 0, 0, 0, 0, 0, 0, 0, 0, 0, 0, 0, 0,
    0, 0, 0, 0, 0, 0, 0, 0, 0, 0, 0, 0, 0, 0, 0, 0, 0, 0, 0, 0, 0, 0, 0, 0, 0, 0, 0, 0, 0, 0, 0, 0,
    0, 4, 0, 3, 0, 0, 0, 2, 0, 0, 0, 0, 0, 0, 0, 0, 0, 0, 0, 0, 1, 0, 0, 0, 0, 0, 0, 0, 0, 0, 0, 0,
    0, 4, 0, 3, 0, 0, 0, 2, 0, 0, 0, 0, 0, 0, 0, 0, 0, 0, 0, 0, 1, 0, 0, 0, 0, 0, 0, 0, 0, 0, 0, 0,
    0, 0, 0, 0, 0, 0, 0, 0, 0, 0, 0, 0, 0, 0, 0, 0, 0, 0, 0, 0, 0, 0, 0, 0, 0, 0, 0, 0, 0, 0, 0, 0,
    0, 0, 0, 0, 0, 0, 0, 0, 0, 0, 0, 0, 0, 0, 0, 0, 0, 0, 0, 0, 0, 0, 0, 0, 0, 0, 0, 0, 0, 0, 0, 0,
    0, 0, 0, 0, 0, 0, 0, 0, 0, 0, 0, 0, 0, 0, 0, 0, 0, 0, 0, 0, 0, 0, 0, 0, 0, 0, 0, 0, 0, 0, 0, 0,
    0, 0, 0, 0, 0, 0, 0, 0, 0, 0, 0, 0, 0, 0, 0, 0, 0, 0, 0, 0, 0, 0, 0, 0, 0, 0, 0, 0, 0, 0, 0, 0,
];

/// Maps one raw sequence byte to its code.
pub fn lookup(x: u8) -> (code: u8)
    ensures
        code == base_code(x),
{
    LOOKUP_TABLE[x as usize]
}

/// Maps one raw sequence byte to the code of its complement.
pub fn rc_lookup(x: u8) -> (code: u8)
    ensures
        code == complement_code(base_code(x)),
{
    RC_LOOKUP_TABLE[x as usize]
}

/// Space, tab, line feed, form feed and carriage return.
pub open spec fn is_whitespace(b: u8) -> bool {
    b == 32 || b == 9 || b == 10 || b == 12 || b == 13
}

/// The first position at or after `from` that holds no whitespace, or the
/// length of `s` if there is none.
pub open spec fn skip_whitespace(s: Seq<u8>, from: int) -> int
    decreases s.len() - from,
{
    if from < 0 || from >= s.len() || !is_whitespace(s[from]) {
        from
    } else {
        skip_whitespace(s, from + 1)
    }
}

/// The position just behind the last byte before `to` that is no
/// whitespace, or 0 if there is none.
pub open spec fn skip_whitespace_back(s: Seq<u8>, to: int) -> int
    decreases to,
{
    if to <= 0 || to > s.len() || !is_whitespace(s[to - 1]) {
        to
    } else {
        skip_whitespace_back(s, to - 1)
    }
}

/// `s` without the whitespace at its start and at its end.
pub open spec fn trimmed(s: Seq<u8>) -> Seq<u8> {
    let start = skip_whitespace(s, 0);
    if start >= s.len() {
        Seq::empty()
    } else {
        s.subrange(start, skip_whitespace_back(s, s.len() as int))
    }
}

/// `s` has no whitespace at its start and none at its end.
pub open spec fn is_trimmed(s: Seq<u8>) -> bool {
    s.len() == 0 || (!is_whitespace(s[0]) && !is_whitespace(s[s.len() - 1]))
}

/// What `skip_whitespace` finds: whitespace only lies between `from` and the
/// position found, and none at it.
pub proof fn lemma_skip_whitespace(s: Seq<u8>, from: int)
    requires
        0 <= from <= s.len(),
    ensures
        from <= skip_whitespace(s, from) <= s.len(),
        forall|i: int| from <= i < skip_whitespace(s, from) ==> is_whitespace(s[i]),
        skip_whitespace(s, from) < s.len() ==> !is_whitespace(s[skip_whitespace(s, from)]),
    decreases s.len() - from,
{
    if from < s.len() && is_whitespace(s[from]) {
        lemma_skip_whitespace(s, from + 1);
    }
}

/// What `skip_whitespace_back` finds: whitespace only lies between the
/// position found and `to`, and none just before it.
pub proof fn lemma_skip_whitespace_back(s: Seq<u8>, to: int)
    requires
        0 <= to <= s.len(),
    ensures
        0 <= skip_whitespace_back(s, to) <= to,
        forall|i: int| skip_whitespace_back(s, to) <= i < to ==> is_whitespace(s[i]),
        skip_whitespace_back(s, to) > 0 ==> !is_whitespace(s[skip_whitespace_back(s, to) - 1]),
    decreases to,
{
    if to > 0 && is_whitespace(s[to - 1]) {
        lemma_skip_whitespace_back(s, to - 1);
    }
}

/// Trimming cuts off whitespace only and leaves none at either end; a byte
/// string without whitespace at its ends is left as it is.
pub proof fn lemma_trimmed(s: Seq<u8>)
    ensures
        is_trimmed(trimmed(s)),
        is_trimmed(s) ==> trimmed(s) == s,
        exists|a: int, b: int|
            0 <= a <= b <= s.len() && trimmed(s) == #[trigger] s.subrange(a, b) && (forall|i: int|
                0 <= i < a ==> is_whitespace(s[i])) && (forall|i: int|
                b <= i < s.len() ==> is_whitespace(s[i])),
{
    lemma_skip_whitespace(s, 0);
    lemma_skip_whitespace_back(s, s.len() as int);
    let start = skip_whitespace(s, 0);
    let end = skip_whitespace_back(s, s.len() as int);
    if start >= s.len() {
        assert(trimmed(s) =~= s.subrange(start, start));
        assert(0 <= start <= start <= s.len() && trimmed(s) == s.subrange(start, start));
    } else {
        if end <= start {
            assert(is_whitespace(s[start]));
        }
        assert(0 <= start <= end <= s.len() && trimmed(s) == s.subrange(start, end));
        if is_trimmed(s) {
            assert(start == 0);
            assert(end == s.len());
            assert(s.subrange(0, s.len() as int) =~= s);
        }
    }
}

/// Trimming twice is trimming once.
pub proof fn lemma_trimmed_idempotent(s: Seq<u8>)
    ensures
        trimmed(trimmed(s)) == trimmed(s),
{
    lemma_trimmed(s);
    lemma_trimmed(trimmed(s));
}

/// Whether `b` is ASCII whitespace.
pub fn is_ascii_space(b: u8) -> (r: bool)
    ensures
        r == is_whitespace(b),
{
    b == 32 || b == 9 || b == 10 || b == 12 || b == 13
}

/// Trimming of ASCII whitespace from both ends of a byte string.
pub trait SliceExt {
    /// The part of `self` between its leading and its trailing whitespace.
    fn trim(&self) -> &Self;
}

impl SliceExt for [u8] {
    fn trim(&self) -> (r: &[u8])
        ensures
            r@ == trimmed(self@),
    {
        let mut from: usize = 0;
        while from < self.len() && is_ascii_space(self[from])
            invariant
                from <= self.len(),
                skip_whitespace(self@, 0) == skip_whitespace(self@, from as int),
            decreases self.len() - from,
        {
            from += 1;
        }
        if from == self.len() {
            return &self[0..0];
        }
        let mut to: usize = self.len();
        while is_ascii_space(self[to - 1])
            invariant
                from < to <= self.len(),
                !is_whitespace(self@[from as int]),
                skip_whitespace_back(self@, self@.len() as int) == skip_whitespace_back(
                    self@,
                    to as int,
                ),
            decreases to,
        {
            to -= 1;
        }
        &self[from..to]
    }
}

/// The format of a sequence file.
#[derive(Clone, Copy, Debug, PartialEq, Eq)]
pub enum FileType {
    Fasta,
    Fastq,
    Unknown,
}

/// The last line that the guess at a file's format looks at, counting from 0.
pub const LAST_SNIFFED_LINE: usize = 100;

/// The number of line feeds among the first `upto` characters of `s`.
pub open spec fn newline_count(s: Seq<char>, upto: int) -> nat
    decreases upto,
{
    if upto <= 0 {
        0
    } else if s[upto - 1] == '\n' {
        newline_count(s, upto - 1) + 1
    } else {
        newline_count(s, upto - 1)
    }
}

/// A line of `s` starts at `p`: `p` is the start of `s` or follows a line
/// feed, and text is left there. The line's number is `newline_count(s, p)`.
pub open spec fn line_starts_at(s: Seq<char>, p: int) -> bool {
    0 <= p < s.len() && (p == 0 || s[p - 1] == '\n')
}

/// One of the lines 0, 4, 8, ..., 100 of `s` starts at `p`, with `@`.
pub open spec fn fastq_header_at(s: Seq<char>, p: int) -> bool {
    &&& line_starts_at(s, p)
    &&& s[p] == '@'
    &&& newline_count(s, p) <= LAST_SNIFFED_LINE
    &&& newline_count(s, p) % 4 == 0
}

/// One of the lines 0 to 100 of `s` starts at `p`, with `>`.
pub open spec fn fasta_header_at(s: Seq<char>, p: int) -> bool {
    &&& line_starts_at(s, p)
    &&& s[p] == '>'
    &&& newline_count(s, p) <= LAST_SNIFFED_LINE
}

/// The format that the first lines of `s` suggest. A line among the first 101
/// whose number is a multiple of four and which starts with `@` makes it
/// FASTQ. Failing that, a line among the first 101 that starts with `>` makes
/// it FASTA.
pub open spec fn sniffed_file_type(s: Seq<char>) -> FileType {
    if exists|p: int| fastq_header_at(s, p) {
        FileType::Fastq
    } else if exists|p: int| fasta_header_at(s, p) {
        FileType::Fasta
    } else {
        FileType::Unknown
    }
}

/// The count of line feeds does not fall as the prefix grows.
pub proof fn lemma_newline_count_monotonic(s: Seq<char>, a: int, b: int)
    requires
        a <= b,
    ensures
        newline_count(s, a) <= newline_count(s, b),
    decreases b - a,
{
    if a < b {
        lemma_newline_count_monotonic(s, a, b - 1);
    }
}

/// Guesses the format of a file from the text of its first lines.
pub fn auto_determine_file_type(content: &str) -> (file_type: FileType)
    ensures
        file_type == sniffed_file_type(content@),
{
    let mut chars = content.chars();
    let mut line: usize = 0;
    let mut at_start = true;
    let mut is_fasta = false;
    let mut finished = false;
    let ghost s = content@;
    let ghost mut pos: int = 0;
    while !finished
        invariant
            s == content@,
            0 <= pos <= s.len(),
            chars.obeys_prophetic_iter_laws(),
            chars.remaining() == s.skip(pos),
            line == newline_count(s, pos),
            !finished ==> line <= LAST_SNIFFED_LINE,
            finished ==> pos == s.len() || line > LAST_SNIFFED_LINE,
            at_start == (pos == 0 || s[pos - 1] == '\n'),
            forall|p: int| 0 <= p < pos ==> !fastq_header_at(s, p),
            is_fasta == (exists|p: int| 0 <= p < pos && fasta_header_at(s, p)),
        decreases s.len() - pos, if finished { 0int } else { 1int },
    {
        match chars.next() {
            None => {
                finished = true;
            },
            Some(c) => {
                assert(c == s[pos]);
                assert(s.skip(pos).drop_first() == s.skip(pos + 1));
                if at_start && line % 4 == 0 && c == '@' {
                    assert(fastq_header_at(s, pos));
                    return FileType::Fastq;
                }
                let ghost was_fasta = is_fasta;
                if at_start && c == '>' {
                    is_fasta = true;
                    assert(fasta_header_at(s, pos));
                }
                if c == '\n' {
                    line += 1;
                    at_start = true;
                    if line > LAST_SNIFFED_LINE {
                        finished = true;
                    }
                } else {
                    at_start = false;
                }
                proof {
                    if is_fasta && !was_fasta {
                        assert(fasta_header_at(s, pos));
                    } else if was_fasta {
                        let q = choose|p: int| 0 <= p < pos && fasta_header_at(s, p);
                        assert(0 <= q < pos + 1 && fasta_header_at(s, q));
                    } else {
                        assert(!fasta_header_at(s, pos));
                    }
                    pos = pos + 1;
                }
            },
        }
    }
    proof {
        assert forall|p: int| !fastq_header_at(s, p) by {
            if pos <= p < s.len() {
                lemma_newline_count_monotonic(s, pos, p);
            }
        }
        assert forall|p: int| fasta_header_at(s, p) implies 0 <= p < pos by {
            if pos <= p < s.len() {
                lemma_newline_count_monotonic(s, pos, p);
            }
        }
    }
    if is_fasta {
        FileType::Fasta
    } else {
        FileType::Unknown
    }
}

} // verus!
