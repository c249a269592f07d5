//! Parsing of the configuration file into boot entries.
//!
//! In the configuration file, each entry looks like:
//!
//! ```toml
//! [[entry]]
//! name = 'Linux 6.5.5'
//! vmlinux = 'efi\boot\bzImage.efi'
//! param = 'initrd=efi\boot\initramfs-linux.img'
//! ```
//!
//! Any number of entries may follow one another. The field `vmlinux` must
//! be an absolute path with backslash as path separator. Only a subset of
//! the toml syntax is understood, with no escape characters.
use crate::error::{LbootError, Result};
use crate::wide::{nul_free, BoxedCStr16};
use vstd::prelude::*;
use vstd::slice::slice_subrange;

verus! {

/// ASCII whitespace as `u8::is_ascii_whitespace` knows it.
pub open spec fn is_ws(b: u8) -> bool {
    b == 0x20u8 || b == 0x09u8 || b == 0x0Au8 || b == 0x0Cu8 || b == 0x0Du8
}

/// A quoting character: `'` or `"`.
pub open spec fn is_quote(b: u8) -> bool {
    b == 0x27u8 || b == 0x22u8
}

/// `s` without its leading whitespace.
pub open spec fn trim_front(s: Seq<u8>) -> Seq<u8>
    decreases s.len(),
{
    if s.len() > 0 && is_ws(s[0]) {
        trim_front(s.drop_first())
    } else {
        s
    }
}

/// `s` without its trailing whitespace.
pub open spec fn trim_back(s: Seq<u8>) -> Seq<u8>
    decreases s.len(),
{
    if s.len() > 0 && is_ws(s.last()) {
        trim_back(s.drop_last())
    } else {
        s
    }
}

/// One layer of matching quotes taken off, where a non-empty body remains.
pub open spec fn unquote(s: Seq<u8>) -> Seq<u8> {
    if s.len() >= 3 && is_quote(s[0]) && s.last() == s[0] {
        s.subrange(1, s.len() - 1)
    } else {
        s
    }
}

/// A key or a value as the grammar reads it: trimmed, then unquoted once.
pub open spec fn trim_field(s: Seq<u8>) -> Seq<u8> {
    unquote(trim_back(trim_front(s)))
}

/// Bytes widened to 16-bit code units.
pub open spec fn widen(s: Seq<u8>) -> Seq<u16> {
    s.map_values(|b: u8| b as u16)
}

/// True when no byte of `s` is zero.
pub open spec fn zero_free(s: Seq<u8>) -> bool {
    forall|i: int| 0 <= i < s.len() ==> s[i] != 0u8
}

/// The line that opens a new entry.
pub open spec fn entry_header() -> Seq<u8> {
    seq![0x5Bu8, 0x5Bu8, 0x65u8, 0x6Eu8, 0x74u8, 0x72u8, 0x79u8, 0x5Du8, 0x5Du8]
}

/// The key `name`.
pub open spec fn key_name() -> Seq<u8> {
    seq![0x6Eu8, 0x61u8, 0x6Du8, 0x65u8]
}

/// The key `vmlinux`.
pub open spec fn key_vmlinux() -> Seq<u8> {
    seq![0x76u8, 0x6Du8, 0x6Cu8, 0x69u8, 0x6Eu8, 0x75u8, 0x78u8]
}

/// The key `param`.
pub open spec fn key_param() -> Seq<u8> {
    seq![0x70u8, 0x61u8, 0x72u8, 0x61u8, 0x6Du8]
}

/// The index of the first `c` in `s`, if there is one.
pub open spec fn first_index(s: Seq<u8>, c: u8) -> Option<int>
    decreases s.len(),
{
    if s.len() == 0 {
        None
    } else if s[0] == c {
        Some(0)
    } else {
        match first_index(s.drop_first(), c) {
            Some(i) => Some(i + 1),
            None => None,
        }
    }
}

/// What one line of the file says, with field values as code units.
pub enum LineView {
    Name(Seq<u16>),
    Vmlinux(Seq<u16>),
    Param(Seq<u16>),
    Blank,
    NewEntry,
    Unknown,
}

/// How a line is read: empty and unparsable lines are blank, `[[entry]]`
/// opens an entry, and `key = value` sets a field of a known key.
pub open spec fn classify(line: Seq<u8>) -> LineView {
    if line.len() == 0 {
        LineView::Blank
    } else if line == entry_header() {
        LineView::NewEntry
    } else {
        match first_index(line, 0x3Du8) {
            None => LineView::Blank,
            Some(i) => {
                let key = trim_field(line.take(i));
                let value = trim_field(line.skip(i + 1));
                if key.len() == 0 || value.len() == 0 {
                    LineView::Unknown
                } else if key == key_name() {
                    LineView::Name(widen(value))
                } else if key == key_vmlinux() {
                    LineView::Vmlinux(widen(value))
                } else if key == key_param() {
                    LineView::Param(widen(value))
                } else {
                    LineView::Unknown
                }
            }
        }
    }
}

/// One line of the file, read: field values are nul-terminated buffers.
#[derive(Debug)]
pub enum LineType {
    Name(Vec<u16>),
    Vmlinux(Vec<u16>),
    Param(Vec<u16>),
    Blank,
    NewEntry,
    Unknown,
}

impl LineType {
    /// The value's units, terminator excluded.
    pub open spec fn view_of(&self) -> LineView {
        match self {
            LineType::Name(v) => LineView::Name(v@.drop_last()),
            LineType::Vmlinux(v) => LineView::Vmlinux(v@.drop_last()),
            LineType::Param(v) => LineView::Param(v@.drop_last()),
            LineType::Blank => LineView::Blank,
            LineType::NewEntry => LineView::NewEntry,
            LineType::Unknown => LineView::Unknown,
        }
    }

    /// A value buffer ends in its only terminator.
    pub open spec fn terminated(&self) -> bool {
        match self {
            LineType::Name(v) | LineType::Vmlinux(v) | LineType::Param(v) => {
                &&& v@.len() >= 1
                &&& v@.last() == 0u16
                &&& nul_free(v@.drop_last())
            },
            _ => true,
        }
    }
}

proof fn lemma_trim_front_is_suffix(s: Seq<u8>)
    ensures
        trim_front(s).len() <= s.len(),
        trim_front(s) == s.skip(s.len() - trim_front(s).len()),
    decreases s.len(),
{
    if s.len() > 0 && is_ws(s[0]) {
        lemma_trim_front_is_suffix(s.drop_first());
        assert(s.drop_first().skip(s.drop_first().len() - trim_front(s).len()) =~= s.skip(
            s.len() - trim_front(s).len(),
        ));
    } else {
        assert(s.skip(0) =~= s);
    }
}

proof fn lemma_trim_back_is_prefix(s: Seq<u8>)
    ensures
        trim_back(s).len() <= s.len(),
        trim_back(s) == s.take(trim_back(s).len() as int),
    decreases s.len(),
{
    if s.len() > 0 && is_ws(s.last()) {
        lemma_trim_back_is_prefix(s.drop_last());
        assert(s.drop_last().take(trim_back(s).len() as int) =~= s.take(
            trim_back(s).len() as int,
        ));
    } else {
        assert(s.take(s.len() as int) =~= s);
    }
}

/// Widening keeps a zero-free text free of terminators.
proof fn lemma_widen_nul_free(s: Seq<u8>)
    requires
        zero_free(s),
    ensures
        nul_free(widen(s)),
{
    assert forall|i: int| 0 <= i < widen(s).len() implies widen(s)[i] != 0u16 by {
        assert(s[i] != 0u8);
    }
}

/// What an entry holds: each field's text, where the field is set.
pub struct EntryView {
    pub name: Option<Seq<u16>>,
    pub vmlinux: Option<Seq<u16>>,
    pub param: Option<Seq<u16>>,
}

/// An entry with no field set.
pub open spec fn empty_entry() -> EntryView {
    EntryView { name: None, vmlinux: None, param: None }
}

/// The text of a field.
pub open spec fn field_view(f: Option<BoxedCStr16>) -> Option<Seq<u16>> {
    match f {
        Some(s) => Some(s@),
        None => None,
    }
}

/// One bootable target.
#[derive(Debug)]
pub struct Entry {
    /// The name of the entry.
    pub name: Option<BoxedCStr16>,
    /// The path of the kernel executable, which must be an absolute path
    /// with backslash as path separator.
    pub vmlinux: Option<BoxedCStr16>,
    /// Boot parameters passed to the kernel.
    pub param: Option<BoxedCStr16>,
}

impl View for Entry {
    type V = EntryView;

    open spec fn view(&self) -> EntryView {
        EntryView {
            name: field_view(self.name),
            vmlinux: field_view(self.vmlinux),
            param: field_view(self.param),
        }
    }
}

impl Default for Entry {
    fn default() -> (r: Entry)
        ensures
            r@ == empty_entry(),
    {
        Entry { name: None, vmlinux: None, param: None }
    }
}

/// The views of a list of entries.
pub open spec fn entries_view(es: Seq<Entry>) -> Seq<EntryView> {
    es.map_values(|e: Entry| e@)
}

/// `Unknown`, shown for a field that is not set.
pub open spec fn unknown_text() -> Seq<u16> {
    seq![0x55u16, 0x6Eu16, 0x6Bu16, 0x6Eu16, 0x6Fu16, 0x77u16, 0x6Eu16]
}

/// How a field is shown.
pub open spec fn field_text(f: Option<Seq<u16>>) -> Seq<u16> {
    match f {
        Some(s) => s,
        None => unknown_text(),
    }
}

/// How an entry is shown: `name@[vmlinux] -- param`.
pub open spec fn render_view(e: EntryView) -> Seq<u16> {
    field_text(e.name) + seq![0x40u16, 0x5Bu16] + field_text(e.vmlinux) + seq![
        0x5Du16,
        0x20u16,
        0x2Du16,
        0x2Du16,
        0x20u16,
    ] + field_text(e.param)
}

/// Appends `s` to `out`.
fn push_units(out: &mut Vec<u16>, s: &[u16])
    ensures
        final(out)@ == old(out)@ + s@,
{
    let mut i: usize = 0;
    while i < s.len()
        invariant
            i <= s@.len(),
            out@ == old(out)@ + s@.take(i as int),
        decreases s@.len() - i,
    {
        out.push(s[i]);
        i += 1;
        assert(out@ =~= old(out)@ + s@.take(i as int));
    }
    assert(s@.take(i as int) =~= s@);
}

/// Appends how a field is shown to `out`.
fn push_field(out: &mut Vec<u16>, f: &Option<BoxedCStr16>)
    ensures
        final(out)@ == old(out)@ + field_text(field_view(*f)),
{
    match f {
        Some(s) => push_units(out, s.text()),
        None => push_units(out, &[0x55u16, 0x6Eu16, 0x6Bu16, 0x6Eu16, 0x6Fu16, 0x77u16, 0x6Eu16]),
    }
}

impl Entry {
    /// The entry as it is shown: `name@[vmlinux] -- param`, with `Unknown`
    /// for each field that is not set.
    pub fn render(&self) -> (r: Vec<u16>)
        ensures
            r@ == render_view(self@),
    {
        let mut out: Vec<u16> = Vec::new();
        push_field(&mut out, &self.name);
        push_units(&mut out, &[0x40u16, 0x5Bu16]);
        push_field(&mut out, &self.vmlinux);
        push_units(&mut out, &[0x5Du16, 0x20u16, 0x2Du16, 0x2Du16, 0x20u16]);
        push_field(&mut out, &self.param);
        proof {
            assert(out@ =~= render_view(self@));
        }
        out
    }
}

/// The pieces of `c` between line feeds, in order: the text after the
/// last line feed is the last line (empty where `c` ends in a line feed).
pub open spec fn lines_of(c: Seq<u8>) -> Seq<Seq<u8>>
    decreases c.len(),
{
    match first_index(c, 0x0Au8) {
        Some(i) => if 0 <= i < c.len() {
            seq![c.take(i)] + lines_of(c.skip(i + 1))
        } else {
            seq![c]
        },
        None => seq![c],
    }
}

/// The entries after one more line of this kind, or `None` once the file is wrong.
pub open spec fn apply_kind(acc: Option<Seq<EntryView>>, kind: LineView) -> Option<
    Seq<EntryView>,
> {
    match acc {
        None => None,
        Some(es) => match kind {
            LineView::Blank => Some(es),
            LineView::NewEntry => Some(es.push(empty_entry())),
            LineView::Unknown => None,
            LineView::Name(v) => if es.len() == 0 {
                None
            } else {
                Some(es.update(es.len() - 1, EntryView { name: Some(v), ..es.last() }))
            },
            LineView::Vmlinux(v) => if es.len() == 0 {
                None
            } else {
                Some(es.update(es.len() - 1, EntryView { vmlinux: Some(v), ..es.last() }))
            },
            LineView::Param(v) => if es.len() == 0 {
                None
            } else {
                Some(es.update(es.len() - 1, EntryView { param: Some(v), ..es.last() }))
            },
        },
    }
}

/// The entries after one more line, or `None` once the file is wrong.
pub open spec fn apply_line(acc: Option<Seq<EntryView>>, line: Seq<u8>) -> Option<
    Seq<EntryView>,
> {
    apply_kind(acc, classify(line))
}

/// The entries that a sequence of lines describes, read in order.
pub open spec fn parse_lines(lines: Seq<Seq<u8>>) -> Option<Seq<EntryView>>
    decreases lines.len(),
{
    if lines.len() == 0 {
        Some(seq![])
    } else {
        apply_line(parse_lines(lines.drop_last()), lines.last())
    }
}

/// The entries that a file describes, or `None` when it is wrong.
pub open spec fn parse_spec(c: Seq<u8>) -> Option<Seq<EntryView>> {
    parse_lines(lines_of(c))
}

/// Once the lines read so far are wrong, the whole file is.
proof fn lemma_wrong_sticks(lines: Seq<Seq<u8>>, k: int)
    requires
        0 <= k <= lines.len(),
        parse_lines(lines.take(k)) is None,
    ensures
        parse_lines(lines) is None,
    decreases lines.len(),
{
    if k == lines.len() {
        assert(lines.take(k) =~= lines);
    } else {
        assert(lines.drop_last().take(k) =~= lines.take(k));
        lemma_wrong_sticks(lines.drop_last(), k);
    }
}

/// True when a line sets a field.
pub open spec fn is_field_line(l: LineView) -> bool {
    l is Name || l is Vmlinux || l is Param
}

/// Before the first `[[entry]]`, the lines read so far give no entry, or
/// the file is already wrong.
proof fn lemma_no_entry_yet(lines: Seq<Seq<u8>>, k: int)
    requires
        0 <= k <= lines.len(),
        forall|j: int| 0 <= j < k ==> classify(#[trigger] lines[j]) != LineView::NewEntry,
    ensures
        parse_lines(lines.take(k)) is None || parse_lines(lines.take(k)) == Some(
            Seq::<EntryView>::empty(),
        ),
    decreases k,
{
    if k > 0 {
        lemma_no_entry_yet(lines, k - 1);
        assert(lines.take(k).drop_last() =~= lines.take(k - 1));
        assert(lines.take(k).last() == lines[k - 1]);
    } else {
        assert(lines.take(0) =~= Seq::<Seq<u8>>::empty());
    }
}

/// A field line before any `[[entry]]` makes the whole file wrong: the
/// line is never dropped silently.
pub proof fn lemma_field_before_entry_fails(c: Seq<u8>, k: int)
    requires
        0 <= k < lines_of(c).len(),
        is_field_line(classify(lines_of(c)[k])),
        forall|j: int| 0 <= j < k ==> classify(#[trigger] lines_of(c)[j]) != LineView::NewEntry,
    ensures
        parse_spec(c) is None,
{
    let lines = lines_of(c);
    lemma_no_entry_yet(lines, k);
    assert(lines.take(k + 1).drop_last() =~= lines.take(k));
    assert(lines.take(k + 1).last() == lines[k]);
    lemma_wrong_sticks(lines, k + 1);
}

/// A line with an unknown key, or with an empty key or value, makes the
/// whole file wrong: no partial list of entries comes out.
pub proof fn lemma_unknown_line_fails(c: Seq<u8>, k: int)
    requires
        0 <= k < lines_of(c).len(),
        classify(lines_of(c)[k]) == LineView::Unknown,
    ensures
        parse_spec(c) is None,
{
    let lines = lines_of(c);
    assert(lines.take(k + 1).drop_last() =~= lines.take(k));
    assert(lines.take(k + 1).last() == lines[k]);
    lemma_wrong_sticks(lines, k + 1);
}

/// Size of the buffer that the configuration file is read into.
pub const BUFF_SIZE: usize = 1024;

/// The configuration file loaded in memory: its bytes up to the first zero.
#[derive(Debug)]
pub struct Config {
    contents: Vec<u8>,
}

impl View for Config {
    type V = Seq<u8>;

    closed spec fn view(&self) -> Seq<u8> {
        self.contents@
    }
}

impl Config {
    /// The contents hold no zero byte.
    #[verifier::type_invariant]
    spec fn inv(&self) -> bool {
        zero_free(self.contents@)
    }

    /// The file as read into a buffer: its contents end at the first zero
    /// byte, and a buffer without one holds no complete file.
    pub fn from_buffer(buf: &[u8]) -> (r: Result<Config>)
        ensures
            match first_index(buf@, 0u8) {
                Some(i) => r matches Ok(c) && c@ == buf@.take(i) && zero_free(c@),
                None => r == Err::<Config, LbootError>(LbootError::CannotOpenConfig),
            },
    {
        match position_of(buf, 0u8) {
            Some(end) => {
                let contents = vstd::slice::slice_to_vec(slice_subrange(buf, 0, end));
                proof {
                    lemma_first_index_before(buf@, 0u8, end as int);
                    assert(contents@ =~= buf@.take(end as int));
                }
                Ok(Config { contents })
            },
            None => Err(LbootError::CannotOpenConfig),
        }
    }

    /// Reads the loaded file into its boot entries, in file order. The
    /// contents are split at each line feed, and the text after the last
    /// one is a line too. A field line before any `[[entry]]`, or a line
    /// with an unknown key or an empty key or value, makes the whole file
    /// wrong.
    pub fn parse(&self) -> (r: Result<Vec<Entry>>)
        ensures
            match parse_spec(self@) {
                Some(es) => r matches Ok(v) && entries_view(v@) == es,
                None => r == Err::<Vec<Entry>, LbootError>(LbootError::WrongConfig),
            },
    {
        proof {
            use_type_invariant(self);
        }
        let contents = self.contents.as_slice();
        let mut result: Vec<Entry> = Vec::new();
        let mut rest: usize = 0;
        let ghost mut done: Seq<Seq<u8>> = seq![];
        proof {
            assert(contents@.skip(0) =~= contents@);
            assert(lines_of(contents@) =~= done + lines_of(contents@.skip(0)));
            assert(entries_view(result@) =~= seq![]);
        }
        loop
            invariant
                rest <= contents@.len(),
                contents@ == self@,
                zero_free(contents@),
                lines_of(contents@) == done + lines_of(contents@.skip(rest as int)),
                parse_lines(done) == Some(entries_view(result@)),
            decreases contents@.len() - rest,
        {
            let tail = slice_subrange(contents, rest, contents.len());
            assert(tail@ =~= contents@.skip(rest as int));
            let found = position_of(tail, 0x0Au8);
            let line = match found {
                Some(len) => slice_subrange(contents, rest, rest + len),
                None => tail,
            };
            let ghost rest_lines = lines_of(contents@.skip(rest as int));
            proof {
                match found {
                    Some(len) => {
                        assert(line@ =~= tail@.take(len as int));
                        assert(tail@.skip(len + 1) =~= contents@.skip(rest + len + 1));
                        assert(rest_lines =~= seq![line@] + lines_of(
                            contents@.skip(rest + len + 1),
                        ));
                        assert(done + rest_lines =~= done.push(line@) + lines_of(
                            contents@.skip(rest + len + 1),
                        ));
                    },
                    None => {
                        assert(done + rest_lines =~= done.push(line@));
                    },
                }
                assert(done.push(line@).drop_last() =~= done);
                assert(zero_free(line@));
            }
            let line_type = Config::parse_line(line);
            if !apply_entry_line(&mut result, line_type) {
                proof {
                    let all = lines_of(contents@);
                    assert(all.take((done.len() + 1) as int) =~= done.push(line@));
                    lemma_wrong_sticks(all, (done.len() + 1) as int);
                }
                return Err(LbootError::WrongConfig);
            }
            proof {
                done = done.push(line@);
            }
            match found {
                Some(len) => {
                    rest = rest + len + 1;
                },
                None => {
                    return Ok(result);
                },
            }
        }
    }

    /// Trims ASCII whitespace from both ends of `s`, then takes off one
    /// layer of matching quotes where a non-empty body remains.
    pub fn trim(s: &[u8]) -> (r: &[u8])
        ensures
            r@ == trim_field(s@),
    {
        let len = s.len();
        let mut start: usize = 0;
        assert(s@.skip(0) =~= s@);
        while start < len && is_ascii_ws(s[start])
            invariant
                start <= len,
                len == s@.len(),
                trim_front(s@) == trim_front(s@.skip(start as int)),
            decreases len - start,
        {
            assert(s@.skip(start as int).drop_first() =~= s@.skip(start + 1));
            start += 1;
        }
        assert(trim_front(s@) == s@.skip(start as int));
        let mut end: usize = len;
        while end > start && is_ascii_ws(s[end - 1])
            invariant
                start <= end <= len,
                len == s@.len(),
                trim_back(trim_front(s@)) == trim_back(s@.subrange(start as int, end as int)),
            decreases end,
        {
            assert(s@.subrange(start as int, end as int).drop_last() =~= s@.subrange(
                start as int,
                end - 1,
            ));
            end -= 1;
        }
        assert(trim_back(trim_front(s@)) == s@.subrange(start as int, end as int));
        if end - start >= 3 && (s[start] == 0x27u8 || s[start] == 0x22u8) && s[end - 1]
            == s[start] {
            start += 1;
            end -= 1;
        }
        slice_subrange(s, start, end)
    }

    /// Widens `s` to 16-bit code units and appends the terminator.
    pub fn build_u16_vec(s: &[u8]) -> (r: Vec<u16>)
        ensures
            r@ == widen(s@).push(0u16),
    {
        let mut result: Vec<u16> = Vec::new();
        let mut i: usize = 0;
        while i < s.len()
            invariant
                i <= s@.len(),
                result@ == widen(s@.take(i as int)),
            decreases s@.len() - i,
        {
            result.push(s[i] as u16);
            i += 1;
            assert(result@ =~= widen(s@.take(i as int)));
        }
        assert(s@.take(i as int) =~= s@);
        result.push(0u16);
        result
    }

    /// Reads one line of the file.
    pub fn parse_line(line: &[u8]) -> (r: LineType)
        requires
            zero_free(line@),
        ensures
            r.view_of() == classify(line@),
            r.terminated(),
    {
        if line.len() == 0 {
            return LineType::Blank;
        }
        if slice_eq(line, &[0x5Bu8, 0x5Bu8, 0x65u8, 0x6Eu8, 0x74u8, 0x72u8, 0x79u8, 0x5Du8, 0x5Du8]) {
            return LineType::NewEntry;
        }
        match position_of(line, 0x3Du8) {
            None => LineType::Blank,
            Some(split) => {
                let key = Config::trim(slice_subrange(line, 0, split));
                let raw = Config::trim(slice_subrange(line, split + 1, line.len()));
                proof {
                    lemma_trim_front_is_suffix(line@.skip(split + 1));
                    lemma_trim_back_is_prefix(trim_front(line@.skip(split + 1)));
                    assert(line@.skip(split + 1) =~= line@.subrange(split + 1, line@.len() as int));
                    assert forall|i: int| 0 <= i < raw@.len() implies raw@[i] != 0u8 by {
                        let t = trim_front(line@.skip(split + 1));
                        let u = trim_back(t);
                        assert(t == line@.skip(split + 1).skip(line@.len() - (split + 1) - t.len()));
                        assert(u == t.take(u.len() as int));
                        if unquote(u) != u {
                            assert(raw@[i] == u[i + 1]);
                            assert(u[i + 1] == t[i + 1]);
                        } else {
                            assert(raw@[i] == u[i]);
                            assert(u[i] == t[i]);
                        }
                    }
                    lemma_widen_nul_free(raw@);
                }
                if key.len() == 0 || raw.len() == 0 {
                    return LineType::Unknown;
                }
                let value = Config::build_u16_vec(raw);
                assert(value@.drop_last() =~= widen(raw@));
                if slice_eq(key, &[0x6Eu8, 0x61u8, 0x6Du8, 0x65u8]) {
                    LineType::Name(value)
                } else if slice_eq(key, &[0x76u8, 0x6Du8, 0x6Cu8, 0x69u8, 0x6Eu8, 0x75u8, 0x78u8]) {
                    LineType::Vmlinux(value)
                } else if slice_eq(key, &[0x70u8, 0x61u8, 0x72u8, 0x61u8, 0x6Du8]) {
                    LineType::Param(value)
                } else {
                    LineType::Unknown
                }
            },
        }
    }
}

/// Space, tab, line feed, form feed or carriage return.
fn is_ascii_ws(b: u8) -> (r: bool)
    ensures
        r == is_ws(b),
{
    b == 0x20u8 || b == 0x09u8 || b == 0x0Au8 || b == 0x0Cu8 || b == 0x0Du8
}

/// A field value: the buffer ends in its only terminator.
fn boxed_value(v: Vec<u16>) -> (r: BoxedCStr16)
    requires
        v@.len() >= 1,
        v@.last() == 0u16,
        nul_free(v@.drop_last()),
    ensures
        r@ == v@.drop_last(),
{
    let r = BoxedCStr16::new(v);
    proof {
        if r@.len() < v@.len() - 1 {
            assert(v@.drop_last()[r@.len() as int] == 0u16);
        }
        assert(r@ =~= v@.drop_last());
    }
    r
}

/// Applies one read line to the entries read so far; false where the line
/// makes the file wrong.
fn apply_entry_line(result: &mut Vec<Entry>, line_type: LineType) -> (ok: bool)
    requires
        line_type.terminated(),
    ensures
        ok ==> apply_kind(Some(entries_view(old(result)@)), line_type.view_of()) == Some(
            entries_view(final(result)@),
        ),
        !ok ==> apply_kind(Some(entries_view(old(result)@)), line_type.view_of()) is None,
{
    let ghost before = entries_view(result@);
    match line_type {
        LineType::Blank => true,
        LineType::NewEntry => {
            result.push(Entry::default());
            assert(entries_view(result@) =~= before.push(empty_entry()));
            true
        },
        LineType::Unknown => false,
        LineType::Name(v) => {
            if result.len() == 0 {
                return false;
            }
            let mut e = result.pop().unwrap();
            e.name = Some(boxed_value(v));
            result.push(e);
            assert(entries_view(result@) =~= before.update(
                before.len() - 1,
                EntryView { name: Some(v@.drop_last()), ..before.last() },
            ));
            true
        },
        LineType::Vmlinux(v) => {
            if result.len() == 0 {
                return false;
            }
            let mut e = result.pop().unwrap();
            e.vmlinux = Some(boxed_value(v));
            result.push(e);
            assert(entries_view(result@) =~= before.update(
                before.len() - 1,
                EntryView { vmlinux: Some(v@.drop_last()), ..before.last() },
            ));
            true
        },
        LineType::Param(v) => {
            if result.len() == 0 {
                return false;
            }
            let mut e = result.pop().unwrap();
            e.param = Some(boxed_value(v));
            result.push(e);
            assert(entries_view(result@) =~= before.update(
                before.len() - 1,
                EntryView { param: Some(v@.drop_last()), ..before.last() },
            ));
            true
        },
    }
}

/// Compares two byte strings.
fn slice_eq(a: &[u8], b: &[u8]) -> (r: bool)
    ensures
        r == (a@ == b@),
{
    if a.len() != b.len() {
        return false;
    }
    let mut i: usize = 0;
    while i < a.len()
        invariant
            i <= a@.len(),
            a@.len() == b@.len(),
            forall|j: int| 0 <= j < i ==> a@[j] == b@[j],
        decreases a@.len() - i,
    {
        if a[i] != b[i] {
            return false;
        }
        i += 1;
    }
    assert(a@ =~= b@);
    true
}

proof fn lemma_first_index(s: Seq<u8>, c: u8, k: int)
    requires
        0 <= k <= s.len(),
        forall|j: int| 0 <= j < k ==> s[j] != c,
    ensures
        k < s.len() && s[k] == c ==> first_index(s, c) == Some(k),
        k == s.len() ==> first_index(s, c) == None::<int>,
    decreases k,
{
    if k > 0 {
        lemma_first_index(s.drop_first(), c, k - 1);
    } else if s.len() > 0 {
    }
}

/// No `c` stands before the first one.
proof fn lemma_first_index_before(s: Seq<u8>, c: u8, k: int)
    requires
        first_index(s, c) == Some(k),
    ensures
        0 <= k < s.len(),
        s[k] == c,
        forall|j: int| 0 <= j < k ==> s[j] != c,
    decreases s.len(),
{
    if s[0] != c {
        lemma_first_index_before(s.drop_first(), c, k - 1);
        assert forall|j: int| 0 <= j < k implies s[j] != c by {
            if j > 0 {
                assert(s[j] == s.drop_first()[j - 1]);
            }
        }
    }
}

/// The index of the first `c` in `s`, if there is one.
fn position_of(s: &[u8], c: u8) -> (r: Option<usize>)
    ensures
        r matches Some(i) ==> first_index(s@, c) == Some(i as int) && i < s@.len(),
        r is None ==> first_index(s@, c) == None::<int>,
{
    let mut i: usize = 0;
    while i < s.len()
        invariant
            i <= s@.len(),
            forall|j: int| 0 <= j < i ==> s@[j] != c,
        decreases s@.len() - i,
    {
        if s[i] == c {
            proof {
                lemma_first_index(s@, c, i as int);
            }
            return Some(i);
        }
        i += 1;
    }
    proof {
        lemma_first_index(s@, c, i as int);
    }
    None
}

} // verus!
