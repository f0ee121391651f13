//! Option values of the viewer and the parsing of their textual forms.

use vstd::prelude::*;
use vstd::string::StrSliceExecFns;

verus! {

broadcast use vstd::string::axiom_spec_iter;

/// The characters of `s`, in order.
pub fn chars_of(s: &str) -> (r: Vec<char>)
    ensures
        r@ == s@,
{
    let mut r: Vec<char> = Vec::new();
    for c in it: s.chars()
        invariant
            it.seq() == s@,
            r@ == it.seq().take(it.index() as int),
    {
        assert(it.seq().take(it.index() + 1) =~= it.seq().take(it.index() as int).push(c));
        r.push(c);
    }
    assert(s@.take(s@.len() as int) =~= s@);
    r
}

/// Whether `s` reads exactly `lit`.
pub fn str_equals(s: &str, lit: &str) -> (r: bool)
    ensures
        r == (s@ == lit@),
{
    let a = chars_of(s);
    let b = chars_of(lit);
    if a.len() != b.len() {
        return false;
    }
    let mut i: usize = 0;
    while i < a.len()
        invariant
            a@ == s@,
            b@ == lit@,
            a.len() == b.len(),
            i <= a.len(),
            forall|k: int| 0 <= k < i ==> a@[k] == b@[k],
        decreases a.len() - i,
    {
        if a[i] != b[i] {
            return false;
        }
        i = i + 1;
    }
    assert(a@ =~= b@);
    true
}

/// Direction of a text run.
#[derive(Clone, Copy, Debug, PartialEq, Eq, Structural)]
pub enum Direction {
    LTR,
    RTL,
    TTB,
    BTT,
}

impl Direction {
    /// Reads `ltr`, `rtl`, `ttb` or `btt`.
    pub fn parse(s: &str) -> (r: Option<Direction>)
        ensures
            r == (if s@ == "ltr"@ {
                Some(Direction::LTR)
            } else if s@ == "rtl"@ {
                Some(Direction::RTL)
            } else if s@ == "ttb"@ {
                Some(Direction::TTB)
            } else if s@ == "btt"@ {
                Some(Direction::BTT)
            } else {
                None
            }),
    {
        if str_equals(s, "ltr") {
            Some(Direction::LTR)
        } else if str_equals(s, "rtl") {
            Some(Direction::RTL)
        } else if str_equals(s, "ttb") {
            Some(Direction::TTB)
        } else if str_equals(s, "btt") {
            Some(Direction::BTT)
        } else {
            None
        }
    }

    /// The shaping engine's code for the direction.
    pub fn to_hb(&self) -> (r: u32)
        ensures
            r == match *self {
                Direction::LTR => crate::cluster::DIRECTION_LTR,
                Direction::RTL => crate::cluster::DIRECTION_RTL,
                Direction::TTB => crate::cluster::DIRECTION_TTB,
                Direction::BTT => crate::cluster::DIRECTION_BTT,
            },
    {
        match self {
            Direction::LTR => crate::cluster::DIRECTION_LTR,
            Direction::RTL => crate::cluster::DIRECTION_RTL,
            Direction::TTB => crate::cluster::DIRECTION_TTB,
            Direction::BTT => crate::cluster::DIRECTION_BTT,
        }
    }
}

impl std::str::FromStr for Direction {
    type Err = String;

    fn from_str(s: &str) -> Result<Direction, String> {
        match Direction::parse(s) {
            Some(d) => Ok(d),
            None => Err("ltr/rtl/ttb/btt".to_owned()),
        }
    }
}

/// How far the shaping engine merges clusters.
#[derive(Clone, Copy, Debug, PartialEq, Eq, Structural)]
pub enum ClusterLevel {
    MonotoneGraphemes,
    MonotoneCharacters,
    Characters,
}

impl ClusterLevel {
    /// Reads `0`, `1` or `2`.
    pub fn parse(s: &str) -> (r: Option<ClusterLevel>)
        ensures
            r == (if s@ == "0"@ {
                Some(ClusterLevel::MonotoneGraphemes)
            } else if s@ == "1"@ {
                Some(ClusterLevel::MonotoneCharacters)
            } else if s@ == "2"@ {
                Some(ClusterLevel::Characters)
            } else {
                None
            }),
    {
        if str_equals(s, "0") {
            Some(ClusterLevel::MonotoneGraphemes)
        } else if str_equals(s, "1") {
            Some(ClusterLevel::MonotoneCharacters)
        } else if str_equals(s, "2") {
            Some(ClusterLevel::Characters)
        } else {
            None
        }
    }

    /// The shaping engine's code for the level.
    pub fn to_hb(&self) -> (r: u32)
        ensures
            r == match *self {
                ClusterLevel::MonotoneGraphemes => 0u32,
                ClusterLevel::MonotoneCharacters => 1u32,
                ClusterLevel::Characters => 2u32,
            },
    {
        match self {
            ClusterLevel::MonotoneGraphemes => 0,
            ClusterLevel::MonotoneCharacters => 1,
            ClusterLevel::Characters => 2,
        }
    }
}

impl std::str::FromStr for ClusterLevel {
    type Err = String;

    fn from_str(s: &str) -> Result<ClusterLevel, String> {
        match ClusterLevel::parse(s) {
            Some(l) => Ok(l),
            None => Err("0/1/2".to_owned()),
        }
    }
}

/// Format of the rendered output.
#[derive(Clone, Copy, Debug, PartialEq, Eq, Structural)]
pub enum OutputFormat {
    ANSI,
    PNG,
    SVG,
    PDF,
    PS,
    EPS,
}

impl OutputFormat {
    /// Reads `ansi`, `png`, `svg`, `pdf`, `ps` or `eps`.
    pub fn parse(s: &str) -> (r: Option<OutputFormat>)
        ensures
            r == (if s@ == "ansi"@ {
                Some(OutputFormat::ANSI)
            } else if s@ == "png"@ {
                Some(OutputFormat::PNG)
            } else if s@ == "svg"@ {
                Some(OutputFormat::SVG)
            } else if s@ == "pdf"@ {
                Some(OutputFormat::PDF)
            } else if s@ == "ps"@ {
                Some(OutputFormat::PS)
            } else if s@ == "eps"@ {
                Some(OutputFormat::EPS)
            } else {
                None
            }),
    {
        if str_equals(s, "ansi") {
            Some(OutputFormat::ANSI)
        } else if str_equals(s, "png") {
            Some(OutputFormat::PNG)
        } else if str_equals(s, "svg") {
            Some(OutputFormat::SVG)
        } else if str_equals(s, "pdf") {
            Some(OutputFormat::PDF)
        } else if str_equals(s, "ps") {
            Some(OutputFormat::PS)
        } else if str_equals(s, "eps") {
            Some(OutputFormat::EPS)
        } else {
            None
        }
    }
}

impl std::str::FromStr for OutputFormat {
    type Err = String;

    fn from_str(s: &str) -> Result<OutputFormat, String> {
        match OutputFormat::parse(s) {
            Some(f) => Ok(f),
            None => Err("ansi/png/svg/pdf/ps/eps".to_owned()),
        }
    }
}

/// Fields of a numeric option are separated by spaces or commas.
pub open spec fn is_separator(c: char) -> bool {
    c == ' ' || c == ','
}

/// The non-empty fields of `s` between separators.
pub open spec fn fields(s: Seq<char>) -> Seq<Seq<char>>
    decreases s.len(),
{
    if s.len() == 0 {
        seq![]
    } else {
        let prev = fields(s.drop_last());
        let c = s.last();
        if is_separator(c) {
            prev
        } else if s.len() >= 2 && !is_separator(s[s.len() - 2]) {
            prev.update(prev.len() - 1, prev.last().push(c))
        } else {
            prev.push(seq![c])
        }
    }
}

proof fn lemma_fields_nonempty(s: Seq<char>)
    requires
        s.len() > 0,
        !is_separator(s.last()),
    ensures
        fields(s).len() > 0,
    decreases s.len(),
{
    if s.len() >= 2 && !is_separator(s[s.len() - 2]) {
        let d = s.drop_last();
        assert(d.last() == s[s.len() - 2]);
        lemma_fields_nonempty(d);
    }
}

/// Splits `s` into its non-empty fields.
pub fn split_fields(s: &str) -> (r: Vec<Vec<char>>)
    ensures
        r@.len() == fields(s@).len(),
        forall|i: int| 0 <= i < r@.len() ==> (#[trigger] r@[i])@ == fields(s@)[i],
{
    let cs = chars_of(s);
    let ghost t = cs@;
    let mut r: Vec<Vec<char>> = Vec::new();
    let mut i: usize = 0;
    while i < cs.len()
        invariant
            t == cs@,
            i <= cs.len(),
            r@.len() == fields(t.take(i as int)).len(),
            forall|k: int| 0 <= k < r@.len() ==> (#[trigger] r@[k])@ == fields(t.take(i as int))[k],
        decreases cs.len() - i,
    {
        let c = cs[i];
        let ghost pre = t.take(i as int);
        let ghost post = t.take(i + 1);
        proof {
            assert(post.drop_last() =~= pre);
            assert(post.last() == c);
        }
        if c == ' ' || c == ',' {
        } else if i >= 1 && cs[i - 1] != ' ' && cs[i - 1] != ',' {
            proof {
                assert(pre.last() == cs[i - 1]);
                lemma_fields_nonempty(pre);
                assert(post[post.len() - 2] == cs[i - 1]);
            }
            let mut last = r.pop().unwrap();
            last.push(c);
            r.push(last);
        } else {
            let mut f: Vec<char> = Vec::new();
            f.push(c);
            r.push(f);
            proof {
                if i >= 1 {
                    assert(post[post.len() - 2] == cs[i - 1]);
                }
            }
        }
        proof {
            assert forall|k: int| 0 <= k < r@.len() implies (#[trigger] r@[k])@ == fields(post)[k] by {
                if k == r@.len() - 1 {
                    assert(r@[k]@ =~= fields(post)[k]);
                }
            }
        }
        i = i + 1;
    }
    assert(t.take(t.len() as int) =~= t);
    r
}

pub open spec fn is_digit(c: char) -> bool {
    '0' <= c <= '9'
}

/// Value of a string of decimal digits.
pub open spec fn decimal_value(d: Seq<char>) -> nat
    decreases d.len(),
{
    if d.len() == 0 {
        0
    } else {
        decimal_value(d.drop_last()) * 10 + ((d.last() as u32) - ('0' as u32)) as nat
    }
}

/// An unsigned decimal integer as std's `u32::from_str` reads it: an
/// optional `+`, then one or more digits, with a value that fits.
pub open spec fn u32_of(t: Seq<char>) -> Option<u32> {
    let d = unsigned_part(t);
    if d.len() > 0 && all_digits(d) && decimal_value(d) <= u32::MAX {
        Some(decimal_value(d) as u32)
    } else {
        None
    }
}

/// The digits after an optional leading `+`.
pub open spec fn unsigned_part(t: Seq<char>) -> Seq<char> {
    if t.len() > 0 && t[0] == '+' {
        t.drop_first()
    } else {
        t
    }
}

pub open spec fn all_digits(d: Seq<char>) -> bool {
    forall|i: int| 0 <= i < d.len() ==> is_digit(#[trigger] d[i])
}

proof fn lemma_decimal_grows(d: Seq<char>, i: int, j: int)
    requires
        0 <= i <= j <= d.len(),
        forall|k: int| 0 <= k < d.len() ==> is_digit(#[trigger] d[k]),
    ensures
        decimal_value(d.take(i)) <= decimal_value(d.take(j)),
    decreases j - i,
{
    if i < j {
        lemma_decimal_grows(d, i, j - 1);
        assert(d.take(j).drop_last() =~= d.take(j - 1));
        assert(is_digit(d[j - 1]));
    }
}

/// Reads an unsigned decimal integer.
pub fn parse_u32(t: &Vec<char>) -> (r: Option<u32>)
    ensures
        r == u32_of(t@),
{
    let start: usize = if t.len() > 0 && t[0] == '+' {
        1
    } else {
        0
    };
    let ghost d = unsigned_part(t@);
    assert(d =~= t@.subrange(start as int, t@.len() as int));
    if start >= t.len() {
        return None;
    }
    let mut i: usize = start;
    while i < t.len()
        invariant
            start <= i <= t.len(),
            d =~= t@.subrange(start as int, t@.len() as int),
            d == unsigned_part(t@),
            forall|k: int| start <= k < i ==> is_digit(#[trigger] t@[k]),
        decreases t.len() - i,
    {
        if t[i] < '0' || t[i] > '9' {
            assert(d[i - start] == t@[i as int]);
            assert(!is_digit(d[i - start]));
            return None;
        }
        i = i + 1;
    }
    assert(forall|k: int| 0 <= k < d.len() ==> is_digit(#[trigger] d[k])) by {
        assert forall|k: int| 0 <= k < d.len() implies is_digit(#[trigger] d[k]) by {
            assert(d[k] == t@[start + k]);
        }
    }
    let mut acc: u64 = 0;
    let mut j: usize = start;
    while j < t.len()
        invariant
            start <= j <= t.len(),
            d =~= t@.subrange(start as int, t@.len() as int),
            d == unsigned_part(t@),
            forall|k: int| 0 <= k < d.len() ==> is_digit(#[trigger] d[k]),
            acc == decimal_value(d.take(j - start)),
            acc <= u32::MAX,
        decreases t.len() - j,
    {
        let ghost m = j - start;
        proof {
            assert(d.take(m + 1).drop_last() =~= d.take(m));
            assert(d.take(m + 1).last() == t@[j as int]);
            assert(is_digit(d[m]));
        }
        acc = acc * 10 + (t[j] as u32 - '0' as u32) as u64;
        assert(acc == decimal_value(d.take(m + 1)));
        if acc > 0xFFFF_FFFF {
            proof {
                lemma_decimal_grows(d, m + 1, d.len() as int);
                assert(d.take(d.len() as int) =~= d);
            }
            return None;
        }
        j = j + 1;
    }
    assert(d.take(d.len() as int) =~= d);
    Some(acc as u32)
}

/// Why an option's argument was refused.
#[derive(Clone, Copy, Debug, PartialEq, Eq, Structural)]
pub enum ParseError {
    /// A field is not a number of the expected kind.
    InvalidNumber,
    /// The argument holds too few or too many fields.
    WrongCount,
}

/// Pixels per em, horizontally and vertically.
#[derive(Clone, Copy, Debug, PartialEq, Eq, Structural)]
pub struct FontPpem {
    pub x: u32,
    pub y: u32,
}

impl Default for FontPpem {
    fn default() -> (r: FontPpem)
        ensures
            r == (FontPpem { x: 0, y: 0 }),
    {
        FontPpem { x: 0, y: 0 }
    }
}

/// One field sets both values, two fields set x and y.
pub open spec fn ppem_of(f: Seq<Seq<char>>) -> Result<FontPpem, ParseError> {
    if f.len() == 1 {
        match u32_of(f[0]) {
            Some(v) => Ok(FontPpem { x: v, y: v }),
            None => Err(ParseError::InvalidNumber),
        }
    } else if f.len() == 2 {
        match (u32_of(f[0]), u32_of(f[1])) {
            (Some(x), Some(y)) => Ok(FontPpem { x, y }),
            _ => Err(ParseError::InvalidNumber),
        }
    } else {
        Err(ParseError::WrongCount)
    }
}

/// Reads a pixels-per-em setting: one or two unsigned integers separated by
/// spaces or commas.
pub fn parse_font_ppem(arg: &str) -> (r: Result<FontPpem, ParseError>)
    ensures
        r == ppem_of(fields(arg@)),
{
    let f = split_fields(arg);
    if f.len() == 1 {
        match parse_u32(&f[0]) {
            Some(v) => Ok(FontPpem { x: v, y: v }),
            None => Err(ParseError::InvalidNumber),
        }
    } else if f.len() == 2 {
        let x = parse_u32(&f[0]);
        let y = parse_u32(&f[1]);
        match (x, y) {
            (Some(x), Some(y)) => Ok(FontPpem { x, y }),
            _ => Err(ParseError::InvalidNumber),
        }
    } else {
        Err(ParseError::WrongCount)
    }
}

/// The pieces of `s` between line feeds; there is always at least one.
pub open spec fn split_lf(s: Seq<char>) -> Seq<Seq<char>>
    decreases s.len(),
{
    if s.len() == 0 {
        seq![seq![]]
    } else {
        let p = split_lf(s.drop_last());
        if s.last() == '\n' {
            p.push(seq![])
        } else {
            p.update(p.len() - 1, p.last().push(s.last()))
        }
    }
}

proof fn lemma_split_lf_nonempty(s: Seq<char>)
    ensures
        split_lf(s).len() >= 1,
    decreases s.len(),
{
    if s.len() > 0 {
        lemma_split_lf_nonempty(s.drop_last());
    }
}

/// A line ended by `\r\n` loses the carriage return as well.
pub open spec fn strip_cr(l: Seq<char>) -> Seq<char> {
    if l.len() > 0 && l.last() == '\r' {
        l.drop_last()
    } else {
        l
    }
}

/// The lines of a text: ended by `\n` or `\r\n`, the last one possibly
/// unterminated; a text that ends with a line ending has no empty last line.
pub open spec fn lines_of(s: Seq<char>) -> Seq<Seq<char>> {
    let p = split_lf(s);
    let done = p.drop_last().map_values(|l: Seq<char>| strip_cr(l));
    if p.last().len() == 0 {
        done
    } else {
        done.push(p.last())
    }
}

/// Splits a text into its lines.
pub fn split_lines(text: &str) -> (r: Vec<String>)
    ensures
        r@.len() == lines_of(text@).len(),
        forall|i: int| 0 <= i < r@.len() ==> (#[trigger] r@[i])@ == lines_of(text@)[i],
{
    let cs = chars_of(text);
    let ghost t = cs@;
    let mut r: Vec<String> = Vec::new();
    let mut start: usize = 0;
    let mut i: usize = 0;
    while i < cs.len()
        invariant
            t == cs@,
            t == text@,
            start <= i <= cs.len(),
            split_lf(t.take(i as int)).len() >= 1,
            split_lf(t.take(i as int)).last() == t.subrange(start as int, i as int),
            r@.len() == split_lf(t.take(i as int)).len() - 1,
            forall|k: int|
                0 <= k < r@.len() ==> (#[trigger] r@[k])@ == strip_cr(
                    split_lf(t.take(i as int))[k],
                ),
        decreases cs.len() - i,
    {
        let ghost p = split_lf(t.take(i as int));
        let ghost post = t.take(i + 1);
        proof {
            assert(post.drop_last() =~= t.take(i as int));
            assert(post.last() == cs[i as int]);
        }
        if cs[i] == '\n' {
            let end: usize = if i > start && cs[i - 1] == '\r' {
                i - 1
            } else {
                i
            };
            let line = text.substring_char(start, end).to_owned();
            proof {
                assert(line@ == strip_cr(p.last())) by {
                    if i > start && cs[i - 1] == '\r' {
                        assert(p.last().drop_last() =~= t.subrange(start as int, end as int));
                    } else {
                        assert(p.last() =~= t.subrange(start as int, end as int));
                    }
                }
            }
            r.push(line);
            start = i + 1;
            proof {
                assert(split_lf(post) == p.push(seq![]));
                assert(t.subrange(start as int, i + 1) =~= Seq::<char>::empty());
            }
        } else {
            proof {
                assert(t.subrange(start as int, i + 1) =~= t.subrange(start as int, i as int).push(
                    cs[i as int],
                ));
            }
        }
        i = i + 1;
    }
    let ghost p = split_lf(t);
    assert(t.take(t.len() as int) =~= t);
    if start < cs.len() {
        let line = text.substring_char(start, cs.len()).to_owned();
        r.push(line);
    }
    proof {
        let want = lines_of(t);
        assert(r@.len() == want.len());
        assert forall|k: int| 0 <= k < r@.len() implies (#[trigger] r@[k])@ == want[k] by {}
    }
    r
}

/// Where the text comes from, context around each line, and the lines of
/// the text with the index of the next one to hand out.
pub struct TextOptions {
    pub text: Option<String>,
    pub text_file: Option<String>,
    pub unicodes: Vec<u32>,
    pub text_before: Option<String>,
    pub text_after: Option<String>,
    pub lines: Vec<String>,
    pub next_line: usize,
}

impl TextOptions {
    /// Takes `text` as the input, to be handed out line by line.
    pub fn load(&mut self, text: &str)
        ensures
            final(self).lines@.len() == lines_of(text@).len(),
            forall|i: int|
                0 <= i < final(self).lines@.len() ==> (#[trigger] final(self).lines@[i])@
                    == lines_of(text@)[i],
            final(self).next_line == 0,
            final(self).text == old(self).text,
            final(self).text_file == old(self).text_file,
            final(self).unicodes == old(self).unicodes,
            final(self).text_before == old(self).text_before,
            final(self).text_after == old(self).text_after,
    {
        self.lines = split_lines(text);
        self.next_line = 0;
    }

    /// The next line of the input, or `None` when all have been handed out.
    pub fn readline(&mut self) -> (r: Option<String>)
        ensures
            old(self).next_line < old(self).lines@.len() ==> {
                &&& r is Some
                &&& r->0@ == old(self).lines@[old(self).next_line as int]@
                &&& final(self).next_line == old(self).next_line + 1
            },
            old(self).next_line >= old(self).lines@.len() ==> r is None && final(self).next_line
                == old(self).next_line,
            final(self).lines == old(self).lines,
            final(self).text == old(self).text,
            final(self).text_file == old(self).text_file,
            final(self).unicodes == old(self).unicodes,
            final(self).text_before == old(self).text_before,
            final(self).text_after == old(self).text_after,
    {
        if self.next_line < self.lines.len() {
            let line = self.lines[self.next_line].clone();
            self.next_line = self.next_line + 1;
            Some(line)
        } else {
            None
        }
    }
}

/// Access to the text of a run of lines and its context.
pub trait TextOpts {
    fn text_before(&self) -> Option<&str>;

    fn text_after(&self) -> Option<&str>;

    fn readline(&mut self) -> Option<String>;
}

impl TextOpts for TextOptions {
    fn text_before(&self) -> Option<&str> {
        match &self.text_before {
            Some(s) => Some(s.as_str()),
            None => None,
        }
    }

    fn text_after(&self) -> Option<&str> {
        match &self.text_after {
            Some(s) => Some(s.as_str()),
            None => None,
        }
    }

    fn readline(&mut self) -> Option<String> {
        TextOptions::readline(self)
    }
}

/// Font features to apply, in the shaping engine's syntax.
pub struct FeatureOptions {
    pub features: Vec<String>,
}

/// Where and in which format the rendering goes.
pub struct OutputAndFormatOptions {
    pub output_file: Option<String>,
    pub output_format: Option<OutputFormat>,
}

/// Buffer flags of the shaping engine.
pub const BUFFER_FLAG_BOT: u32 = 1;
pub const BUFFER_FLAG_EOT: u32 = 2;
pub const BUFFER_FLAG_PRESERVE_DEFAULT_IGNORABLES: u32 = 4;
pub const BUFFER_FLAG_REMOVE_DEFAULT_IGNORABLES: u32 = 8;

/// The buffer flags for text that begins and/or ends a paragraph and for the
/// handling of default-ignorable characters.
pub fn buffer_flags(
    bot: bool,
    eot: bool,
    preserve_default_ignorables: bool,
    remove_default_ignorables: bool,
) -> (r: u32)
    ensures
        r == (if bot { BUFFER_FLAG_BOT } else { 0 }) + (if eot { BUFFER_FLAG_EOT } else { 0 }) + (
        if preserve_default_ignorables {
            BUFFER_FLAG_PRESERVE_DEFAULT_IGNORABLES
        } else {
            0
        }) + (if remove_default_ignorables {
            BUFFER_FLAG_REMOVE_DEFAULT_IGNORABLES
        } else {
            0
        }),
{
    let mut flags: u32 = 0;
    if bot {
        flags = flags + BUFFER_FLAG_BOT;
    }
    if eot {
        flags = flags + BUFFER_FLAG_EOT;
    }
    if preserve_default_ignorables {
        flags = flags + BUFFER_FLAG_PRESERVE_DEFAULT_IGNORABLES;
    }
    if remove_default_ignorables {
        flags = flags + BUFFER_FLAG_REMOVE_DEFAULT_IGNORABLES;
    }
    flags
}

} // verus!
