//! Reading the progress that ffmpeg reports: `key=value` lines, a block of
//! them ended by a `progress` line.
use std::path::PathBuf;

use vstd::prelude::*;

use crate::strings::str_eq;

verus! {

/// The ffmpeg tool: its binary, and that of ffprobe, which reads a
/// input's duration.
pub struct FfmpegTool {
    ffmpeg_path: PathBuf,
    ffprobe_path: PathBuf,
}

impl FfmpegTool {
    /// The binaries of ffmpeg and ffprobe.
    pub closed spec fn paths_spec(&self) -> (PathBuf, PathBuf) {
        (self.ffmpeg_path, self.ffprobe_path)
    }

    /// The tool with the binaries at `ffmpeg_path` and `ffprobe_path`.
    pub fn from_path(ffmpeg_path: PathBuf, ffprobe_path: PathBuf) -> (t: Self)
        ensures
            t.paths_spec() == (ffmpeg_path, ffprobe_path),
    {
        FfmpegTool { ffmpeg_path, ffprobe_path }
    }

    /// The path of the ffmpeg binary.
    pub fn ffmpeg_path(&self) -> (p: &PathBuf)
        ensures
            *p == self.paths_spec().0,
    {
        &self.ffmpeg_path
    }

    /// The path of the ffprobe binary.
    pub fn ffprobe_path(&self) -> (p: &PathBuf)
        ensures
            *p == self.paths_spec().1,
    {
        &self.ffprobe_path
    }
}

/// A listener of progress that only reports it on the standard error.
pub struct NullProgressListener;

/// An input read from a reader.
pub struct ReaderInput<R>(R);

impl<R> ReaderInput<R> {
    /// The input read from `reader`.
    pub fn new(reader: R) -> (i: Self)
        ensures
            i.reader_spec() == reader,
    {
        ReaderInput(reader)
    }

    /// The reader of the input.
    pub closed spec fn reader_spec(&self) -> R {
        self.0
    }

    /// The reader of the input.
    pub fn into_reader(self) -> (r: R)
        ensures
            r == self.reader_spec(),
    {
        self.0
    }
}

/// An output collected into a vector of bytes.
pub struct VecOutput;

/// The arguments of an ffmpeg conversion: no standard input, progress on
/// the standard output, no banner; the input; the output format, its
/// options and the output.
pub open spec fn ffmpeg_args_spec(
    input_url: Seq<char>,
    format_name: Seq<char>,
    option_flags: Seq<Seq<char>>,
    output_url: Seq<char>,
) -> Seq<Seq<char>> {
    seq!["-nostdin"@, "-progress"@, "pipe:1"@, "-hide_banner"@, "-i"@, input_url, "-f"@, format_name]
        + option_flags + seq![output_url]
}

/// The strings as characters.
pub open spec fn strings_view(ss: Seq<String>) -> Seq<Seq<char>> {
    Seq::new(ss.len(), |i: int| ss[i]@)
}

/// The arguments of an ffmpeg conversion of `input_url` to `output_url`
/// in the format `format_name` with its options.
pub fn ffmpeg_args(
    input_url: &str,
    format_name: &str,
    option_flags: &Vec<String>,
    output_url: &str,
) -> (args: Vec<String>)
    ensures
        strings_view(args@) == ffmpeg_args_spec(
            input_url@,
            format_name@,
            strings_view(option_flags@),
            output_url@,
        ),
{
    let mut args: Vec<String> = Vec::new();
    args.push(String::from_str("-nostdin"));
    args.push(String::from_str("-progress"));
    args.push(String::from_str("pipe:1"));
    args.push(String::from_str("-hide_banner"));
    args.push(String::from_str("-i"));
    args.push(String::from_str(input_url));
    args.push(String::from_str("-f"));
    args.push(String::from_str(format_name));
    let ghost head = strings_view(args@);
    assert(head =~= seq![
        "-nostdin"@,
        "-progress"@,
        "pipe:1"@,
        "-hide_banner"@,
        "-i"@,
        input_url@,
        "-f"@,
        format_name@,
    ]);
    let mut i: usize = 0;
    while i < option_flags.len()
        invariant
            i <= option_flags@.len(),
            strings_view(args@) == head + strings_view(option_flags@).take(i as int),
        decreases option_flags@.len() - i,
    {
        let ghost prev = strings_view(args@);
        let flag = option_flags[i].clone();
        args.push(flag);
        assert(strings_view(args@) =~= prev.push(option_flags@[i as int]@));
        assert(strings_view(option_flags@).take(i + 1) =~= strings_view(option_flags@).take(
            i as int,
        ).push(option_flags@[i as int]@));
        i = i + 1;
        assert(strings_view(args@) =~= head + strings_view(option_flags@).take(i as int));
    }
    let ghost before_last = strings_view(args@);
    args.push(String::from_str(output_url));
    assert(strings_view(args@) =~= before_last.push(output_url@));
    assert(strings_view(option_flags@).take(option_flags@.len() as int) =~= strings_view(
        option_flags@,
    ));
    assert(strings_view(args@) =~= ffmpeg_args_spec(
        input_url@,
        format_name@,
        strings_view(option_flags@),
        output_url@,
    ));
    args
}

/// Whether `c` has the Unicode White_Space property.
pub open spec fn is_white_space(c: char) -> bool {
    ('\u{9}' <= c <= '\u{d}') || c == ' ' || c == '\u{85}' || c == '\u{a0}' || c == '\u{1680}'
        || ('\u{2000}' <= c <= '\u{200a}') || c == '\u{2028}' || c == '\u{2029}' || c == '\u{202f}'
        || c == '\u{205f}' || c == '\u{3000}'
}

/// Whether `c` has the Unicode White_Space property.
pub fn white_space(c: char) -> (r: bool)
    ensures
        r == is_white_space(c),
{
    ('\u{9}' <= c && c <= '\u{d}') || c == ' ' || c == '\u{85}' || c == '\u{a0}' || c == '\u{1680}'
        || ('\u{2000}' <= c && c <= '\u{200a}') || c == '\u{2028}' || c == '\u{2029}' || c
        == '\u{202f}' || c == '\u{205f}' || c == '\u{3000}'
}

/// The index of the first character of `s` from `i` on that is not white
/// space, or the length of `s`.
pub open spec fn trim_start_index(s: Seq<char>, i: int) -> int
    decreases s.len() - i,
{
    if i < s.len() && is_white_space(s[i]) {
        trim_start_index(s, i + 1)
    } else {
        i
    }
}

/// The index after the last character of `s` before `j` that is not white
/// space, or `lo`.
pub open spec fn trim_end_index(s: Seq<char>, lo: int, j: int) -> int
    decreases j - lo,
{
    if lo < j && is_white_space(s[j - 1]) {
        trim_end_index(s, lo, j - 1)
    } else {
        j
    }
}

/// `s` without its leading and trailing white space.
pub open spec fn trim_spec(s: Seq<char>) -> Seq<char> {
    let a = trim_start_index(s, 0);
    s.subrange(a, trim_end_index(s, a, s.len() as int))
}

proof fn lemma_trim_start_bounds(s: Seq<char>, i: int)
    requires
        0 <= i <= s.len(),
    ensures
        i <= trim_start_index(s, i) <= s.len(),
    decreases s.len() - i,
{
    if i < s.len() && is_white_space(s[i]) {
        lemma_trim_start_bounds(s, i + 1);
    }
}

proof fn lemma_trim_end_bounds(s: Seq<char>, lo: int, j: int)
    requires
        lo <= j,
    ensures
        lo <= trim_end_index(s, lo, j) <= j,
    decreases j - lo,
{
    if lo < j && is_white_space(s[j - 1]) {
        lemma_trim_end_bounds(s, lo, j - 1);
    }
}

/// `s` without its leading and trailing white space.
pub fn trim(s: &str) -> (t: &str)
    ensures
        t@ == trim_spec(s@),
{
    let n = s.unicode_len();
    let mut a: usize = 0;
    proof {
        lemma_trim_start_bounds(s@, 0);
    }
    while a < n && white_space(s.get_char(a))
        invariant
            n == s@.len(),
            a <= n,
            trim_start_index(s@, a as int) == trim_start_index(s@, 0),
        decreases n - a,
    {
        a = a + 1;
    }
    let mut b: usize = n;
    while b > a && white_space(s.get_char(b - 1))
        invariant
            n == s@.len(),
            a <= b <= n,
            a == trim_start_index(s@, 0),
            trim_end_index(s@, a as int, b as int) == trim_end_index(s@, a as int, n as int),
        decreases b - a,
    {
        b = b - 1;
    }
    s.substring_char(a, b)
}

/// The first index of `c` in `s`, if `s` has it.
pub open spec fn first_index_of(s: Seq<char>, c: char) -> Option<int> {
    if exists|i: int| 0 <= i < s.len() && s[i] == c {
        Some(choose|i: int| 0 <= i < s.len() && s[i] == c && forall|j: int| 0 <= j < i ==> s[j] != c)
    } else {
        None
    }
}

/// A line `key=value` as its key and its trimmed value: the key is what
/// comes before the first `=`.
pub open spec fn split_key_value_spec(line: Seq<char>) -> Option<(Seq<char>, Seq<char>)> {
    match first_index_of(line, '=') {
        Some(i) => Some((line.take(i), trim_spec(line.skip(i + 1)))),
        None => None,
    }
}

/// Splits a `key=value` line at its first `=`, trimming the value; `None`
/// for a line without `=`.
pub fn split_key_value_line(line: &str) -> (r: Option<(&str, &str)>)
    ensures
        match r {
            Some((k, v)) => split_key_value_spec(line@) == Some((k@, v@)),
            None => split_key_value_spec(line@) is None,
        },
{
    let n = line.unicode_len();
    let mut i: usize = 0;
    while i < n
        invariant
            n == line@.len(),
            i <= n,
            forall|j: int| 0 <= j < i ==> line@[j] != '=',
        decreases n - i,
    {
        if line.get_char(i) == '=' {
            let key = line.substring_char(0, i);
            let rest = line.substring_char(i + 1, n);
            let value = trim(rest);
            proof {
                let c = choose|c: int|
                    0 <= c < line@.len() && line@[c] == '=' && forall|j: int|
                        0 <= j < c ==> line@[j] != '=';
                if c < i {
                    assert(line@[c] != '=');
                }
                if i < c {
                    assert(line@[i as int] != '=');
                }
                assert(key@ =~= line@.take(i as int));
                assert(rest@ =~= line@.skip(i + 1));
            }
            return Some((key, value));
        }
        i = i + 1;
    }
    None
}

/// The value of a decimal digit character.
pub open spec fn digit_value(c: char) -> int {
    c as int - '0' as int
}

/// Whether every character of `s` is an ASCII decimal digit.
pub open spec fn all_digits(s: Seq<char>) -> bool {
    forall|i: int| 0 <= i < s.len() ==> '0' <= #[trigger] s[i] <= '9'
}

/// The number that the decimal digits `s` write.
pub open spec fn decimal_value(s: Seq<char>) -> int
    decreases s.len(),
{
    if s.len() == 0 {
        0
    } else {
        decimal_value(s.drop_last()) * 10 + digit_value(s.last())
    }
}

/// The `u64` that `s` writes in decimal, with an optional leading `+`, if
/// it writes one: at least one digit, nothing else, and not over the
/// largest `u64`.
pub open spec fn parse_u64_spec(s: Seq<char>) -> Option<u64> {
    let digits = unsigned_digits(s);
    if digits.len() == 0 || !all_digits(digits) || decimal_value(digits) > u64::MAX {
        None
    } else {
        Some(decimal_value(digits) as u64)
    }
}

/// The digits up to `k` and one more write ten times the number, plus that
/// digit.
proof fn lemma_decimal_step(s: Seq<char>, k: int)
    requires
        0 <= k < s.len(),
    ensures
        decimal_value(s.take(k + 1)) == decimal_value(s.take(k)) * 10 + digit_value(s[k]),
{
    assert(s.take(k + 1).drop_last() =~= s.take(k));
    assert(s.take(k + 1).last() == s[k]);
}

/// `s` without a leading `+`.
pub open spec fn unsigned_digits(s: Seq<char>) -> Seq<char> {
    if s.len() > 0 && s[0] == '+' {
        s.drop_first()
    } else {
        s
    }
}

/// A longer prefix of digits writes a number at least as large.
proof fn lemma_decimal_prefix_le(s: Seq<char>, i: int, j: int)
    requires
        0 <= i <= j <= s.len(),
        all_digits(s),
    ensures
        decimal_value(s.take(i)) <= decimal_value(s.take(j)),
    decreases j - i,
{
    if i < j {
        lemma_decimal_prefix_le(s, i, j - 1);
        assert(s.take(j).drop_last() =~= s.take(j - 1));
        assert('0' <= s[j - 1] <= '9');
        assert(decimal_value(s.take(j - 1)) >= 0) by {
            lemma_decimal_nonneg(s.take(j - 1));
        }
    }
}

proof fn lemma_decimal_nonneg(s: Seq<char>)
    requires
        all_digits(s),
    ensures
        decimal_value(s) >= 0,
    decreases s.len(),
{
    if s.len() > 0 {
        assert(all_digits(s.drop_last())) by {
            assert forall|i: int| 0 <= i < s.drop_last().len() implies '0' <= #[trigger] s.drop_last()[i] <= '9' by {
                assert(s.drop_last()[i] == s[i]);
            }
        }
        lemma_decimal_nonneg(s.drop_last());
        assert('0' <= s[s.len() - 1] <= '9');
    }
}

/// Parses a decimal `u64`, as `u64::from_str` does: an optional `+`, then
/// at least one ASCII digit and nothing else, not over the largest `u64`.
pub fn parse_u64(s: &str) -> (r: Option<u64>)
    ensures
        r == parse_u64_spec(s@),
{
    let n = s.unicode_len();
    let start: usize = if n > 0 && s.get_char(0) == '+' {
        1
    } else {
        0
    };
    let ghost digits = unsigned_digits(s@);
    assert(digits =~= s@.skip(start as int));
    if start == n {
        return None;
    }
    let mut i: usize = start;
    while i < n
        invariant
            n == s@.len(),
            start <= i <= n,
            digits == s@.skip(start as int),
            digits == unsigned_digits(s@),
            forall|j: int| 0 <= j < i - start ==> '0' <= #[trigger] digits[j] <= '9',
        decreases n - i,
    {
        let c = s.get_char(i);
        assert(digits[i - start] == c);
        if !('0' <= c && c <= '9') {
            assert(!all_digits(digits)) by {
                assert(!('0' <= digits[i - start] <= '9'));
            }
            assert(parse_u64_spec(s@) is None);
            return None;
        }
        i = i + 1;
    }
    assert(all_digits(digits));
    let mut v: u64 = 0;
    let mut i: usize = start;
    while i < n
        invariant
            n == s@.len(),
            start <= i <= n,
            digits == s@.skip(start as int),
            digits == unsigned_digits(s@),
            all_digits(digits),
            v == decimal_value(digits.take(i - start)),
        decreases n - i,
    {
        let c = s.get_char(i);
        let ghost k = i - start;
        assert(digits[k] == c);
        proof {
            lemma_decimal_step(digits, k);
        }
        let d: u64 = (c as u32 - '0' as u32) as u64;
        assert(d == digit_value(c));
        if v > 1844674407370955161u64 || (v == 1844674407370955161u64 && d > 5) {
            proof {
                assert(v * 10 + d > u64::MAX);
                lemma_decimal_prefix_le(digits, k + 1, digits.len() as int);
                assert(digits.take(digits.len() as int) =~= digits);
                assert(decimal_value(digits) > u64::MAX);
                assert(parse_u64_spec(s@) is None);
            }
            return None;
        }
        v = v * 10 + d;
        i = i + 1;
    }
    assert(digits.take(n - start) =~= digits);
    Some(v)
}

/// What the parser has read of the current block: the time reached, in
/// microseconds, and the `key=value` pairs so far.
pub struct ProgressParser {
    pub out_time_us: u64,
    pub info: Vec<(String, String)>,
}

/// A block of progress, reported at its `progress` line.
pub struct ProgressReport {
    /// The time reached, in microseconds.
    pub out_time_us: u64,
    /// The block's `key=value` pairs.
    pub info: Vec<(String, String)>,
    /// Whether the `progress` line said `end`.
    pub done: bool,
}

/// Key-value pairs as characters.
pub open spec fn pairs_view(ps: Seq<(String, String)>) -> Seq<(Seq<char>, Seq<char>)> {
    Seq::new(ps.len(), |i: int| (ps[i].0@, ps[i].1@))
}

impl ProgressParser {
    /// A parser at the start: no time reached, no pairs.
    pub fn new() -> (p: Self)
        ensures
            p.out_time_us == 0,
            p.info@.len() == 0,
    {
        ProgressParser { out_time_us: 0, info: Vec::new() }
    }

    /// Reads one line of ffmpeg's progress output. A line without `=` is
    /// skipped. A `progress` line reports the block read so far (and
    /// whether its value is `end`) and starts a new block; the time
    /// reached stays. Another line is added to the block; an `out_time_ms`
    /// line with a decimal value sets the time reached.
    pub fn feed_line(&mut self, line: &str) -> (r: Option<ProgressReport>)
        ensures
            match split_key_value_spec(line@) {
                None => r is None && *final(self) == *old(self),
                Some((k, v)) => if k == "progress"@ {
                    r matches Some(rep) && rep.out_time_us == old(self).out_time_us
                        && pairs_view(rep.info@) == pairs_view(old(self).info@) && rep.done == (
                    trim_spec(v) == "end"@) && final(self).out_time_us == old(self).out_time_us
                        && final(self).info@.len() == 0
                } else {
                    &&& r is None
                    &&& final(self).out_time_us == if k == "out_time_ms"@ && parse_u64_spec(
                        v,
                    ) is Some {
                        parse_u64_spec(v)->0
                    } else {
                        old(self).out_time_us
                    }
                    &&& pairs_view(final(self).info@) == pairs_view(old(self).info@).push((k, v))
                },
            },
    {
        let (key, value) = match split_key_value_line(line) {
            Some(kv) => kv,
            None => {
                return None;
            },
        };
        if str_eq(key, "progress") {
            let done = str_eq(trim(value), "end");
            let mut info: Vec<(String, String)> = Vec::new();
            std::mem::swap(&mut info, &mut self.info);
            Some(ProgressReport { out_time_us: self.out_time_us, info, done })
        } else {
            if str_eq(key, "out_time_ms") {
                match parse_u64(value) {
                    Some(time) => {
                        self.out_time_us = time;
                    },
                    None => {},
                }
            }
            let ghost before = pairs_view(self.info@);
            self.info.push((String::from_str(key), String::from_str(value)));
            assert(pairs_view(self.info@) =~= before.push((key@, value@)));
            None
        }
    }
}


/// The arguments of a conversion name the input right after `-i`, the
/// format right after `-f`, hand the options over in order after the
/// format, and end with the output; progress goes to the standard output.
pub proof fn lemma_ffmpeg_args_layout(
    input_url: Seq<char>,
    format_name: Seq<char>,
    option_flags: Seq<Seq<char>>,
    output_url: Seq<char>,
)
    ensures
        ({
            let a = ffmpeg_args_spec(input_url, format_name, option_flags, output_url);
            &&& a.len() == 9 + option_flags.len()
            &&& a[4] == "-i"@ && a[5] == input_url
            &&& a[6] == "-f"@ && a[7] == format_name
            &&& a[1] == "-progress"@ && a[2] == "pipe:1"@
            &&& a.subrange(8, (8 + option_flags.len()) as int) == option_flags
            &&& a.last() == output_url
        }),
{
    let a = ffmpeg_args_spec(input_url, format_name, option_flags, output_url);
    assert(a.subrange(8, (8 + option_flags.len()) as int) =~= option_flags);
}

/// Trimming leaves a piece of the string: what it drops before and after
/// is all white space, and the piece neither starts nor ends with white
/// space.
pub proof fn lemma_trim_drops_only_white_space(s: Seq<char>)
    ensures
        exists|a: int, b: int|
            #![trigger s.subrange(a, b)]
            0 <= a <= b <= s.len() && trim_spec(s) == s.subrange(a, b) && (forall|i: int|
                0 <= i < a ==> is_white_space(#[trigger] s[i])) && (forall|i: int|
                b <= i < s.len() ==> is_white_space(#[trigger] s[i])),
        trim_spec(s).len() > 0 ==> !is_white_space(trim_spec(s)[0]) && !is_white_space(
            trim_spec(s).last(),
        ),
{
    let a = trim_start_index(s, 0);
    lemma_trim_start_bounds(s, 0);
    lemma_trim_start_skips(s, 0);
    let b = trim_end_index(s, a, s.len() as int);
    lemma_trim_end_bounds(s, a, s.len() as int);
    lemma_trim_end_skips(s, a, s.len() as int);
    assert(trim_spec(s) == s.subrange(a, b));
    if b > a {
        assert(trim_spec(s)[0] == s[a]);
        assert(trim_spec(s).last() == s[b - 1]);
    }
}

/// From `i` on, trimming the start skips white space only, and stops at a
/// character that is not white space (or the end).
proof fn lemma_trim_start_skips(s: Seq<char>, i: int)
    requires
        0 <= i <= s.len(),
    ensures
        forall|k: int| i <= k < trim_start_index(s, i) ==> is_white_space(#[trigger] s[k]),
        trim_start_index(s, i) < s.len() ==> !is_white_space(s[trim_start_index(s, i)]),
    decreases s.len() - i,
{
    if i < s.len() && is_white_space(s[i]) {
        lemma_trim_start_skips(s, i + 1);
    }
}

/// Before `j`, trimming the end drops white space only, and stops after a
/// character that is not white space (or at `lo`).
proof fn lemma_trim_end_skips(s: Seq<char>, lo: int, j: int)
    requires
        0 <= lo <= j <= s.len(),
    ensures
        forall|k: int| trim_end_index(s, lo, j) <= k < j ==> is_white_space(#[trigger] s[k]),
        trim_end_index(s, lo, j) > lo ==> !is_white_space(s[trim_end_index(s, lo, j) - 1]),
    decreases j - lo,
{
    if lo < j && is_white_space(s[j - 1]) {
        lemma_trim_end_skips(s, lo, j - 1);
    }
}

/// A line splits at its first `=`: the key is everything before it and
/// holds no `=`, and the value is what follows it, trimmed.
pub proof fn lemma_split_at_first_equals(line: Seq<char>)
    ensures
        split_key_value_spec(line) is None <==> !line.contains('='),
        split_key_value_spec(line) matches Some((k, v)) ==> !k.contains('=') && k.len() < line.len()
            && line[k.len() as int] == '=' && line.take(k.len() as int) == k && v == trim_spec(
            line.skip(k.len() as int + 1),
        ),
{
    if line.contains('=') {
        lemma_first_index_exists(line, '=', 0);
        let i = first_index_of(line, '=')->0;
        assert(0 <= i < line.len() && line[i] == '=');
        assert(forall|j: int| 0 <= j < i ==> line[j] != '=');
        let k = line.take(i);
        assert(k.len() == i);
        assert(!k.contains('=')) by {
            if k.contains('=') {
                let m = choose|m: int| 0 <= m < k.len() && k[m] == '=';
                assert(line[m] == '=');
            }
        }
    }
}

/// Where `c` occurs in `s` at or after `j` and nowhere before `j`, it has
/// a first occurrence.
proof fn lemma_first_index_exists(s: Seq<char>, c: char, j: int)
    requires
        0 <= j <= s.len(),
        forall|k: int| 0 <= k < j ==> s[k] != c,
        exists|i: int| j <= i < s.len() && s[i] == c,
    ensures
        exists|i: int| 0 <= i < s.len() && s[i] == c && forall|k: int| 0 <= k < i ==> s[k] != c,
    decreases s.len() - j,
{
    if s[j] == c {
        assert(0 <= j < s.len() && s[j] == c && forall|k: int| 0 <= k < j ==> s[k] != c);
    } else {
        lemma_first_index_exists(s, c, j + 1);
    }
}

/// Decimal numbers are read most significant digit first: appending a
/// digit to a number's digits makes ten times the number plus that digit.
pub proof fn lemma_parse_appends_digit(s: Seq<char>, d: char)
    requires
        '0' <= d <= '9',
        parse_u64_spec(s) is Some,
        parse_u64_spec(s)->0 * 10 + (d as int - '0' as int) <= u64::MAX,
    ensures
        parse_u64_spec(s.push(d)) == Some((parse_u64_spec(s)->0 * 10 + (d as int - '0' as int)) as u64),
{
    let digits = unsigned_digits(s);
    let digits2 = unsigned_digits(s.push(d));
    assert(digits.len() > 0);
    assert(digits2 =~= digits.push(d)) by {
        if s.len() > 0 && s[0] == '+' {
            assert(s.push(d)[0] == '+');
            assert(s.push(d).drop_first() =~= s.drop_first().push(d));
        }
    }
    assert(digits2.drop_last() =~= digits);
    assert(digits2.last() == d);
    assert(decimal_value(digits2) == decimal_value(digits) * 10 + digit_value(d));
    lemma_decimal_nonneg(digits);
    assert(parse_u64_spec(s)->0 == decimal_value(digits));
    assert forall|i: int| 0 <= i < digits2.len() implies '0' <= #[trigger] digits2[i] <= '9' by {
        if i < digits.len() {
            assert(digits2[i] == digits[i]);
        }
    }
    assert(all_digits(digits2));
}

} // verus!
