//! The switches of the program and what follows from them.

use vstd::prelude::*;
use vstd::string::*;
use vstd::utf8::is_ascii_chars;

use crate::peer::BenchOpts;
use crate::punch::strategy::PunchOptions;
use crate::text::{
    blank, decimal, ends_in, ends_with, is_digit, law_decimal_reads_back, lemma_decimal,
    lemma_trimmed_between, parse_unsigned, strip_end, stripped_end, trim, trimmed, unsigned_value,
    white_space,
};

verus! {

pub const DEFAULT_NAT_PROBE_COUNT: u32 = 10;

#[derive(Debug, Clone, Copy, PartialEq, Eq, Structural)]
pub enum Mode {
    Send,
    Receive,
}

/// How the relay predicts ports.
#[derive(Debug, Clone, Copy, PartialEq, Eq, Structural)]
pub enum PredictionMode {
    Delta,
    External,
}

impl PredictionMode {
    pub fn as_str(self) -> (s: &'static str)
        ensures
            s@ == match self {
                PredictionMode::Delta => "delta"@,
                PredictionMode::External => "external"@,
            },
    {
        match self {
            PredictionMode::Delta => "delta",
            PredictionMode::External => "external",
        }
    }
}

/// The switches.
#[derive(Debug, Clone)]
pub struct Args {
    pub server: String,
    pub session_id: String,
    pub mode: Mode,
    pub file: Option<String>,
    pub timeout: u64,
    pub probe_count: u32,
    pub probe_debug: bool,
    pub prediction_mode: PredictionMode,
    /// The bits of a percentage.
    pub prediction_range_extra_pct: u64,
    pub tcp_connections: u8,
    pub max_attempts: u32,
    pub allow_fallback: bool,
    pub min_connections: u32,
    pub debug: bool,
    pub chunk: String,
    pub punch_ports: usize,
    pub socket_budget: usize,
    pub max_candidates: usize,
    pub grace_ms: u64,
    pub grace_adaptiv: bool,
    pub retry_pause_ms: u64,
    pub rotate_after_ms: u64,
    pub auto_parallel: bool,
    pub prefer_lan: bool,
    pub probe_from_bound: bool,
    pub legacy: bool,
    pub metrics_file: Option<String>,
    pub metrics_label: Option<String>,
    pub bench: Option<u64>,
    pub bench_rtt: u32,
    pub bench_sample_ms: u64,
    pub bench_then_transfer: bool,
}

/// The role of a side and the file that it sends.
#[derive(Debug, Clone)]
pub struct RoleFile {
    pub role: &'static str,
    /// Empty where there is none.
    pub file: String,
    /// Whether the file has to be there.
    pub must_exist: bool,
}

impl Args {
    /// The options of punching. The reference behaviour wins over the single switches.
    pub fn punch_options(&self) -> (o: PunchOptions)
        ensures
            o == if self.legacy {
                PunchOptions {
                    prefer_lan: false,
                    parallel_ports: 1,
                    socket_budget: 512,
                    max_candidates: None,
                    retry_pause_ms: 100,
                    grace_ms: 300,
                    grace_adaptiv: false,
                    rotate_after_ms: None,
                }
            } else {
                PunchOptions {
                    prefer_lan: self.prefer_lan,
                    parallel_ports: if self.punch_ports >= 1 {
                        self.punch_ports
                    } else {
                        1
                    },
                    socket_budget: if self.socket_budget >= 1 {
                        self.socket_budget
                    } else {
                        1
                    },
                    max_candidates: if self.max_candidates == 0 {
                        None
                    } else {
                        Some(self.max_candidates)
                    },
                    retry_pause_ms: self.retry_pause_ms,
                    grace_ms: self.grace_ms,
                    grace_adaptiv: self.grace_adaptiv,
                    rotate_after_ms: if self.rotate_after_ms == 0 {
                        None
                    } else {
                        Some(self.rotate_after_ms)
                    },
                }
            },
    {
        if self.legacy {
            return PunchOptions::legacy();
        }
        PunchOptions {
            prefer_lan: self.prefer_lan,
            parallel_ports: if self.punch_ports >= 1 {
                self.punch_ports
            } else {
                1
            },
            socket_budget: if self.socket_budget >= 1 {
                self.socket_budget
            } else {
                1
            },
            max_candidates: if self.max_candidates == 0 {
                None
            } else {
                Some(self.max_candidates)
            },
            retry_pause_ms: self.retry_pause_ms,
            grace_ms: self.grace_ms,
            grace_adaptiv: self.grace_adaptiv,
            rotate_after_ms: if self.rotate_after_ms == 0 {
                None
            } else {
                Some(self.rotate_after_ms)
            },
        }
    }

    /// Whether the NAT is probed from the bound ports. The reference behaviour does not.
    pub fn probe_from_bound_ports(&self) -> (yes: bool)
        ensures
            yes == (!self.legacy && self.probe_from_bound),
    {
        !self.legacy && self.probe_from_bound
    }

    /// How the path is measured, if it is.
    pub fn bench_opts(&self) -> (bench: Option<BenchOpts>)
        ensures
            bench == match self.bench {
                Some(megabytes) => Some(
                    BenchOpts {
                        megabytes,
                        rtt_probes: self.bench_rtt,
                        sample_ms: self.bench_sample_ms,
                        mit_transfer: self.bench_then_transfer,
                    },
                ),
                None => None,
            },
    {
        match self.bench {
            Some(megabytes) => Some(
                BenchOpts {
                    megabytes,
                    rtt_probes: self.bench_rtt,
                    sample_ms: self.bench_sample_ms,
                    mit_transfer: self.bench_then_transfer,
                },
            ),
            None => None,
        }
    }

    /// The role and the file: nothing if a file is to be sent and none is given.
    pub fn role_and_file(&self) -> (r: Option<RoleFile>)
        ensures
            ({
                let transfer = match self.bench {
                    Some(_) => self.bench_then_transfer,
                    None => true,
                };
                match self.mode {
                    Mode::Send => match self.file {
                        Some(file) => r matches Some(c) && c.role@ == "sender"@ && c.file@
                            == file@ && c.must_exist == transfer,
                        None => if transfer {
                            r is None
                        } else {
                            r matches Some(c) && c.role@ == "sender"@ && c.file@.len() == 0
                                && !c.must_exist
                        },
                    },
                    Mode::Receive => r matches Some(c) && c.role@ == "receiver"@ && c.file@.len()
                        == 0 && !c.must_exist,
                }
            }),
    {
        let transfer: bool = match self.bench_opts() {
            Some(b) => b.mit_transfer,
            None => true,
        };
        match self.mode {
            Mode::Send => match &self.file {
                Some(file) => Some(
                    RoleFile { role: "sender", file: file.clone(), must_exist: transfer },
                ),
                None => if transfer {
                    None
                } else {
                    Some(RoleFile { role: "sender", file: String::new(), must_exist: false })
                },
            },
            Mode::Receive => Some(
                RoleFile { role: "receiver", file: String::new(), must_exist: false },
            ),
        }
    }
}

/// The smallest block size that can be configured.
pub const MIN_CHUNK_ARG: usize = 64 * 1024;

/// The largest block size that can be configured.
pub const MAX_CHUNK_ARG: usize = 256 * 1024 * 1024;

/// A text in upper case, as `str::to_uppercase` writes it.
pub uninterp spec fn uppercase(s: Seq<char>) -> Seq<char>;

/// An ASCII text in upper case: `A` to `Z` for `a` to `z`, and all else as it is.
pub open spec fn ascii_upper(s: Seq<char>) -> Seq<char> {
    Seq::new(
        s.len(),
        |i: int|
            if 'a' <= s[i] <= 'z' {
                (s[i] as u32 - 32) as char
            } else {
                s[i]
            },
    )
}

/// `str::to_uppercase`: the result depends on the text alone, and in an ASCII text each of `a` to
/// `z` becomes the one of `A` to `Z` that belongs to it, while all else stays. Which of the other
/// characters Unicode maps to which is left unsaid.
#[verifier::external_body]
fn to_uppercase(s: &str) -> (out: String)
    ensures
        out@ == uppercase(s@),
        is_ascii_chars(s@) ==> out@ == ascii_upper(s@),
{
    s.to_uppercase()
}

/// A text in upper case.
pub open spec fn upper_case(s: Seq<char>) -> Seq<char> {
    if is_ascii_chars(s) {
        ascii_upper(s)
    } else {
        uppercase(s)
    }
}

/// A block size in text form: a number in front of a unit.
pub enum ChunkText {
    /// A number, perhaps with a fraction, of megabytes.
    Mega(Seq<char>),
    /// A number, perhaps with a fraction, of kilobytes.
    Kilo(Seq<char>),
    /// A whole number of bytes.
    Bytes(Seq<char>),
}

/// Parts a block size in upper case into number and unit.
pub open spec fn chunk_text(s: Seq<char>) -> ChunkText {
    if ends_in(s, "MB"@) {
        ChunkText::Mega(trimmed(stripped_end(s, "MB"@)))
    } else if ends_in(s, "KB"@) {
        ChunkText::Kilo(trimmed(stripped_end(s, "KB"@)))
    } else if ends_in(s, "B"@) {
        ChunkText::Bytes(trimmed(stripped_end(s, "B"@)))
    } else {
        ChunkText::Bytes(s)
    }
}

/// A block size, parted into number and unit.
#[derive(Debug, Clone)]
pub enum ChunkSpec {
    Mega(String),
    Kilo(String),
    Bytes(String),
}

impl View for ChunkSpec {
    type V = ChunkText;

    open spec fn view(&self) -> ChunkText {
        match *self {
            ChunkSpec::Mega(s) => ChunkText::Mega(s@),
            ChunkSpec::Kilo(s) => ChunkText::Kilo(s@),
            ChunkSpec::Bytes(s) => ChunkText::Bytes(s@),
        }
    }
}

/// Why a block size is not accepted.
#[derive(Debug, Clone, Copy, PartialEq, Eq, Structural)]
pub enum ChunkFault {
    Invalid,
    TooLarge,
    TooSmall,
}

/// Parts a block size in upper case into number and unit.
pub fn split_upper(s: &str) -> (parts: ChunkSpec)
    ensures
        parts@ == chunk_text(s@),
{
    proof {
        reveal_strlit("MB");
        reveal_strlit("KB");
        reveal_strlit("B");
    }
    if ends_with(s, "MB") {
        let number = strip_end(s, "MB");
        ChunkSpec::Mega(trim(number.as_str()))
    } else if ends_with(s, "KB") {
        let number = strip_end(s, "KB");
        ChunkSpec::Kilo(trim(number.as_str()))
    } else if ends_with(s, "B") {
        let number = strip_end(s, "B");
        ChunkSpec::Bytes(trim(number.as_str()))
    } else {
        ChunkSpec::Bytes(s.to_string())
    }
}

/// Parts a block size into number and unit, in whatever case it is written.
pub fn split_chunk_size(s: &str) -> (parts: ChunkSpec)
    ensures
        parts@ == chunk_text(upper_case(trimmed(s@))),
{
    let text = trim(s);
    let upper = to_uppercase(text.as_str());
    split_upper(upper.as_str())
}

/// A block size within its bounds.
pub open spec fn bounded_chunk(n: int) -> Result<int, ChunkFault> {
    if n > MAX_CHUNK_ARG {
        Err(ChunkFault::TooLarge)
    } else if n < MIN_CHUNK_ARG {
        Err(ChunkFault::TooSmall)
    } else {
        Ok(n)
    }
}

impl ChunkText {
    /// The number in front of the unit.
    pub open spec fn number(self) -> Seq<char> {
        match self {
            ChunkText::Mega(s) | ChunkText::Kilo(s) | ChunkText::Bytes(s) => s,
        }
    }

    /// How many bytes the unit stands for.
    pub open spec fn unit(self) -> int {
        match self {
            ChunkText::Mega(_) => 1_048_576,
            ChunkText::Kilo(_) => 1024,
            ChunkText::Bytes(_) => 1,
        }
    }
}

/// The number of bytes that a parted block size stands for. `scaled` is what a number with a
/// fraction makes with its unit, and nothing where the number is none.
pub open spec fn chunk_bytes(parts: ChunkText, scaled: Option<usize>) -> Option<int> {
    match unsigned_value(parts.number(), usize::MAX as int) {
        Some(n) => Some(n * parts.unit()),
        None => match (parts, scaled) {
            (ChunkText::Mega(_), Some(n)) | (ChunkText::Kilo(_), Some(n)) => Some(n as int),
            _ => None,
        },
    }
}

/// The block size of a parted text, or why it is not accepted.
pub open spec fn chunk_size(parts: ChunkText, scaled: Option<usize>) -> Result<int, ChunkFault> {
    match chunk_bytes(parts, scaled) {
        Some(n) => bounded_chunk(n),
        None => Err(ChunkFault::Invalid),
    }
}

/// Whether a result says the same as one about numbers without bound.
pub open spec fn same_size(r: Result<usize, ChunkFault>, expected: Result<int, ChunkFault>) -> bool {
    match (r, expected) {
        (Ok(a), Ok(b)) => a == b,
        (Err(a), Err(b)) => a == b,
        _ => false,
    }
}

/// A result says the same as another exactly if both tell the same number, or the same fault.
pub proof fn law_same_results(r: Result<usize, ChunkFault>, n: int, fault: ChunkFault)
    ensures
        same_size(r, Ok(n)) <==> (r matches Ok(m) && m == n),
        same_size(r, Err(fault)) <==> r == Err::<usize, ChunkFault>(fault),
{
}

/// The block size of a parted text, if it is within bounds.
pub fn chunk_size_of(parts: &ChunkSpec, scaled: Option<usize>) -> (r: Result<usize, ChunkFault>)
    ensures
        same_size(r, chunk_size(parts@, scaled)),
{
    let (text, unit): (&String, usize) = match parts {
        ChunkSpec::Mega(text) => (text, 1_048_576),
        ChunkSpec::Kilo(text) => (text, 1024),
        ChunkSpec::Bytes(text) => (text, 1),
    };
    let n: usize = match parse_unsigned(text.as_str(), usize::MAX as u64) {
        Some(whole) => {
            if whole as usize > MAX_CHUNK_ARG / unit {
                return Err(ChunkFault::TooLarge);
            }
            whole as usize * unit
        },
        None => match (parts, scaled) {
            (ChunkSpec::Mega(_), Some(n)) => n,
            (ChunkSpec::Kilo(_), Some(n)) => n,
            _ => {
                return Err(ChunkFault::Invalid);
            },
        },
    };
    if n > MAX_CHUNK_ARG {
        return Err(ChunkFault::TooLarge);
    }
    if n < MIN_CHUNK_ARG {
        Err(ChunkFault::TooSmall)
    } else {
        Ok(n)
    }
}

/// The block size that a text stands for. `scaled` is what a number with a fraction makes with its
/// unit, and nothing where the number is none.
pub fn parse_chunk_size(s: &str, scaled: Option<usize>) -> (r: Result<usize, ChunkFault>)
    ensures
        same_size(r, chunk_size(chunk_text(upper_case(trimmed(s@))), scaled)),
        r matches Ok(n) ==> MIN_CHUNK_ARG <= n <= MAX_CHUNK_ARG,
{
    let parts = split_chunk_size(s);
    chunk_size_of(&parts, scaled)
}

/// The unit is parted from the number in front of it, which is left as it is, whatever it holds: a
/// number with a fraction too. Without a unit the whole text is the number.
pub proof fn law_unit_is_parted_from_the_number(number: Seq<char>)
    requires
        number.len() > 0,
        !white_space(number[0]),
        !white_space(number.last()),
        number.last() != 'B' && number.last() != 'K' && number.last() != 'M',
    ensures
        chunk_text(number + "MB"@) == ChunkText::Mega(number),
        chunk_text(number + "KB"@) == ChunkText::Kilo(number),
        chunk_text(number + "B"@) == ChunkText::Bytes(number),
        chunk_text(number) == ChunkText::Bytes(number),
{
    reveal_strlit("MB");
    reveal_strlit("KB");
    reveal_strlit("B");
    let none = Seq::<char>::empty();
    lemma_trimmed_between(none, number, none);
    assert(none + number + none =~= number);
    lemma_stripped_once(number, "MB"@);
    lemma_stripped_once(number, "KB"@);
    lemma_stripped_once(number, "B"@);
    lemma_ends_otherwise(number + "KB"@, "MB"@, 2);
    lemma_ends_otherwise(number + "B"@, "MB"@, 2);
    lemma_ends_otherwise(number + "B"@, "KB"@, 2);
    lemma_ends_otherwise(number, "MB"@, 1);
    lemma_ends_otherwise(number, "KB"@, 1);
    lemma_ends_otherwise(number, "B"@, 1);
}

/// A number that is not whole counts as what it makes with its unit, if that is known, in kilobytes
/// and megabytes, and is no number of bytes. What it makes is accepted exactly from 65536 to
/// 268435456.
pub proof fn law_fractions_are_scaled(number: Seq<char>, n: usize)
    requires
        unsigned_value(number, usize::MAX as int) is None,
    ensures
        chunk_size(ChunkText::Mega(number), Some(n)) == bounded_chunk(n as int),
        chunk_size(ChunkText::Kilo(number), Some(n)) == bounded_chunk(n as int),
        chunk_size(ChunkText::Mega(number), None) == Err::<int, ChunkFault>(ChunkFault::Invalid),
        chunk_size(ChunkText::Kilo(number), None) == Err::<int, ChunkFault>(ChunkFault::Invalid),
        chunk_size(ChunkText::Bytes(number), Some(n)) == Err::<int, ChunkFault>(
            ChunkFault::Invalid,
        ),
        65536 <= n <= 268435456 ==> bounded_chunk(n as int) == Ok::<int, ChunkFault>(n as int),
        n < 65536 ==> bounded_chunk(n as int) == Err::<int, ChunkFault>(ChunkFault::TooSmall),
        n > 268435456 ==> bounded_chunk(n as int) == Err::<int, ChunkFault>(ChunkFault::TooLarge),
{
}

proof fn lemma_ends_otherwise(s: Seq<char>, part: Seq<char>, back: int)
    requires
        0 < back <= part.len(),
        back <= s.len() ==> s[s.len() - back] != part[part.len() - back],
    ensures
        !ends_in(s, part),
        stripped_end(s, part) == s,
{
    if ends_in(s, part) {
        let tail = s.subrange(s.len() - part.len(), s.len() as int);
        assert(tail[part.len() - back] == s[s.len() - back]);
    }
}

proof fn lemma_stripped_once(s: Seq<char>, part: Seq<char>)
    requires
        part.len() > 0,
        s.len() > 0 ==> s.last() != part.last(),
    ensures
        ends_in(s + part, part),
        stripped_end(s + part, part) == s,
{
    let all = s + part;
    assert(all.subrange(all.len() - part.len(), all.len() as int) == part);
    assert(all.take(all.len() - part.len()) == s);
    lemma_ends_otherwise(s, part, 1);
}

/// What the text of a whole number is parted into, with a unit in upper case behind it.
pub open spec fn whole_number(n: nat, unit: Seq<char>) -> Option<ChunkText> {
    if unit == "MB"@ {
        Some(ChunkText::Mega(decimal(n)))
    } else if unit == "KB"@ {
        Some(ChunkText::Kilo(decimal(n)))
    } else if unit == "B"@ || unit == Seq::<char>::empty() {
        Some(ChunkText::Bytes(decimal(n)))
    } else {
        None
    }
}

proof fn lemma_parted(n: nat, gap: Seq<char>, unit: Seq<char>)
    requires
        blank(gap),
        unit.len() == 0 ==> gap.len() == 0,
        whole_number(n, unit) is Some,
    ensures
        Some(chunk_text(decimal(n) + gap + unit)) == whole_number(n, unit),
{
    reveal_strlit("MB");
    reveal_strlit("KB");
    reveal_strlit("B");
    let digits = decimal(n);
    let front = digits + gap;
    let s = front + unit;
    lemma_decimal(n);
    assert(is_digit(digits[0]) && is_digit(digits.last()));
    assert(front.last() == if gap.len() > 0 {
        gap.last()
    } else {
        digits.last()
    });
    assert(is_digit(front.last()) || white_space(front.last()));
    assert(trimmed(front) == digits) by {
        lemma_trimmed_between(Seq::empty(), digits, gap);
        assert(Seq::<char>::empty() + digits + gap == front);
    }
    if unit == "MB"@ {
        lemma_stripped_once(front, "MB"@);
    } else if unit == "KB"@ {
        lemma_stripped_once(front, "KB"@);
        lemma_ends_otherwise(s, "MB"@, 2);
    } else if unit == "B"@ {
        lemma_stripped_once(front, "B"@);
        lemma_ends_otherwise(s, "MB"@, 2);
        lemma_ends_otherwise(s, "KB"@, 2);
    } else {
        assert(s == digits);
        lemma_ends_otherwise(s, "MB"@, 1);
        lemma_ends_otherwise(s, "KB"@, 1);
        lemma_ends_otherwise(s, "B"@, 1);
    }
}

/// A whole number in decimal digits with a unit behind it is read as what it says, whatever the case
/// of the unit, and with white space around the whole or in front of the unit. It is accepted
/// exactly from 65536 to 268435456 bytes, from 64 to 262144 kilobytes, and from 1 to 256 megabytes.
/// The white space in front of the unit is ASCII.
pub proof fn law_whole_sizes_are_read(
    n: nat,
    front: Seq<char>,
    gap: Seq<char>,
    unit: Seq<char>,
    back: Seq<char>,
    scaled: Option<usize>,
)
    requires
        n <= usize::MAX,
        blank(front),
        blank(gap),
        blank(back),
        is_ascii_chars(gap),
        is_ascii_chars(unit),
        whole_number(n, ascii_upper(unit)) is Some,
    ensures
        ({
            let text = front + decimal(n) + gap + unit + back;
            let parts = chunk_text(upper_case(trimmed(text)));
            let size = chunk_size(parts, scaled);
            &&& Some(parts) == whole_number(n, ascii_upper(unit))
            &&& chunk_bytes(parts, scaled) == Some(n * parts.unit())
            &&& size == bounded_chunk(n * parts.unit())
            &&& parts is Bytes ==> (size is Ok <==> 65536 <= n <= 268435456)
            &&& parts is Kilo ==> (size is Ok <==> 64 <= n <= 262144)
            &&& parts is Mega ==> (size is Ok <==> 1 <= n <= 256)
        }),
{
    reveal_strlit("MB");
    reveal_strlit("KB");
    reveal_strlit("B");
    let digits = decimal(n);
    let text = front + digits + gap + unit + back;
    let upper = ascii_upper(unit);
    lemma_decimal(n);
    law_decimal_reads_back(n);
    assert(is_digit(digits[0]) && is_digit(digits.last()));
    assert(upper.len() == unit.len());
    if unit.len() == 0 {
        lemma_trimmed_between(front, digits, gap + back);
        assert(text == front + digits + (gap + back));
        assert(upper == Seq::<char>::empty());
        assert(ascii_upper(digits) == digits);
        lemma_parted(n, Seq::empty(), upper);
        assert(digits + Seq::<char>::empty() + upper == digits);
    } else {
        let core = digits + gap + unit;
        assert(upper.last() == 'B');
        assert(unit.last() == 'b' || unit.last() == 'B');
        lemma_trimmed_between(front, core, back);
        assert(text == front + core + back);
        assert forall|i: int| 0 <= i < core.len() implies '\0' <= #[trigger] core[i] <= '\u{7f}' by {
            if i < digits.len() {
                assert(is_digit(digits[i]));
            } else if i < digits.len() + gap.len() {
                assert(core[i] == gap[i - digits.len()]);
            } else {
                assert(core[i] == unit[i - digits.len() - gap.len()]);
            }
        }
        assert(ascii_upper(core) =~= digits + gap + upper) by {
            assert forall|i: int| 0 <= i < digits.len() + gap.len() implies !('a'
                <= #[trigger] core[i] <= 'z') by {
                if i < digits.len() {
                    assert(is_digit(digits[i]));
                } else {
                    assert(white_space(gap[i - digits.len()]));
                }
            }
        }
        lemma_parted(n, gap, upper);
    }
}

} // verus!
