use vstd::prelude::*;

verus! {

/// Unicode `White_Space`: the characters that `str::trim` removes.
pub open spec fn is_white_space(c: char) -> bool {
    let n = c as u32;
    ||| 0x9 <= n <= 0xD
    ||| n == 0x20
    ||| n == 0x85
    ||| n == 0xA0
    ||| n == 0x1680
    ||| 0x2000 <= n <= 0x200A
    ||| n == 0x2028
    ||| n == 0x2029
    ||| n == 0x202F
    ||| n == 0x205F
    ||| n == 0x3000
}

/// `s` without its leading white space.
pub open spec fn trim_start(s: Seq<char>) -> Seq<char>
    decreases s.len(),
{
    if s.len() > 0 && is_white_space(s[0]) {
        trim_start(s.drop_first())
    } else {
        s
    }
}

/// `s` without its trailing white space.
pub open spec fn trim_end(s: Seq<char>) -> Seq<char>
    decreases s.len(),
{
    if s.len() > 0 && is_white_space(s.last()) {
        trim_end(s.drop_last())
    } else {
        s
    }
}

/// `s` without leading and trailing white space.
pub open spec fn trim(s: Seq<char>) -> Seq<char> {
    trim_end(trim_start(s))
}

/// The pieces of `s` between occurrences of `sep`, as `str::split` yields
/// them: one piece more than there are separators, empty pieces included.
pub open spec fn split_on(s: Seq<char>, sep: char) -> Seq<Seq<char>>
    decreases s.len(),
{
    if s.len() == 0 {
        seq![Seq::empty()]
    } else {
        let prev = split_on(s.drop_last(), sep);
        if s.last() == sep {
            prev.push(Seq::empty())
        } else {
            prev.update(prev.len() - 1, prev.last().push(s.last()))
        }
    }
}

pub proof fn lemma_split_on_nonempty(s: Seq<char>, sep: char)
    ensures
        split_on(s, sep).len() >= 1,
    decreases s.len(),
{
    if s.len() > 0 {
        lemma_split_on_nonempty(s.drop_last(), sep);
    }
}

/// Whether `c` is white space (Unicode `White_Space`).
pub fn char_is_white_space(c: char) -> (b: bool)
    ensures
        b == is_white_space(c),
{
    let n = c as u32;
    (0x9 <= n && n <= 0xD) || n == 0x20 || n == 0x85 || n == 0xA0 || n == 0x1680 || (0x2000 <= n
        && n <= 0x200A) || n == 0x2028 || n == 0x2029 || n == 0x202F || n == 0x205F || n == 0x3000
}

/// The bounds, inside `lo..hi`, of `s[lo..hi]` with its white space trimmed.
pub fn trim_range(s: &Vec<char>, lo0: usize, hi0: usize) -> (r: (usize, usize))
    requires
        lo0 <= hi0 <= s.len(),
    ensures
        lo0 <= r.0 <= r.1 <= hi0,
        s@.subrange(r.0 as int, r.1 as int) == trim(s@.subrange(lo0 as int, hi0 as int)),
{
    let mut lo = lo0;
    while lo < hi0 && char_is_white_space(s[lo])
        invariant
            lo0 <= lo <= hi0 <= s.len(),
            trim_start(s@.subrange(lo0 as int, hi0 as int)) == trim_start(
                s@.subrange(lo as int, hi0 as int),
            ),
        decreases hi0 - lo,
    {
        assert(s@.subrange(lo as int, hi0 as int).drop_first() =~= s@.subrange(
            lo + 1,
            hi0 as int,
        ));
        lo = lo + 1;
    }
    assert(trim_start(s@.subrange(lo0 as int, hi0 as int)) == s@.subrange(lo as int, hi0 as int));
    let mut hi = hi0;
    while hi > lo && char_is_white_space(s[hi - 1])
        invariant
            lo <= hi <= hi0 <= s.len(),
            trim_end(s@.subrange(lo as int, hi0 as int)) == trim_end(
                s@.subrange(lo as int, hi as int),
            ),
        decreases hi - lo,
    {
        assert(s@.subrange(lo as int, hi as int).drop_last() =~= s@.subrange(
            lo as int,
            hi - 1,
        ));
        hi = hi - 1;
    }
    (lo, hi)
}


/// The kind of event that an SPC line names.
#[derive(Debug, Clone, Copy, PartialEq, Eq, Structural)]
pub enum EventKind {
    Chart,
    Tap,
    Hold,
    Flick,
    SkyArea,
    Bpm,
    Track,
    Lane,
    Beam,
    Unknown,
}

/// The event kind that a call name stands for.
pub open spec fn kind_of_name(name: Seq<char>) -> EventKind {
    if name == "chart"@ {
        EventKind::Chart
    } else if name == "tap"@ {
        EventKind::Tap
    } else if name == "hold"@ {
        EventKind::Hold
    } else if name == "flick"@ {
        EventKind::Flick
    } else if name == "skyarea"@ {
        EventKind::SkyArea
    } else if name == "bpm"@ {
        EventKind::Bpm
    } else if name == "track"@ {
        EventKind::Track
    } else if name == "lane"@ {
        EventKind::Lane
    } else if name == "beam"@ {
        EventKind::Beam
    } else {
        EventKind::Unknown
    }
}

/// A line of an SPC file cut into its call shape: the kind that the name
/// before `(` stands for, the comma-separated pieces between the first `(`
/// and the last `)`, and the whole line. A line without both brackets, or
/// whose last `)` comes before its first `(`, is `Unknown` with no arguments.
pub struct SpcLine {
    pub kind: EventKind,
    pub args: Vec<String>,
    pub raw: String,
}

/// What an [`SpcLine`] holds, as plain sequences.
pub struct SpcLineView {
    pub kind: EventKind,
    pub args: Seq<Seq<char>>,
    pub raw: Seq<char>,
}

impl View for SpcLine {
    type V = SpcLineView;

    open spec fn view(&self) -> SpcLineView {
        SpcLineView {
            kind: self.kind,
            args: self.args@.map_values(|a: String| a@),
            raw: self.raw@,
        }
    }
}

/// The call shape of a line: when its last `)` comes after its first `(`,
/// the kind named before the `(` and the comma-separated pieces between the
/// two; otherwise `Unknown` with no arguments.
pub open spec fn parse_line_spec(line: Seq<char>) -> SpcLineView {
    match (line.index_of_first('('), line.index_of_last(')')) {
        (Some(p), Some(q)) => if p < q {
            SpcLineView {
                kind: kind_of_name(line.take(p)),
                args: split_on(line.subrange(p + 1, q), ','),
                raw: line,
            }
        } else {
            SpcLineView { kind: EventKind::Unknown, args: Seq::empty(), raw: line }
        },
        _ => SpcLineView { kind: EventKind::Unknown, args: Seq::empty(), raw: line },
    }
}

/// The characters of `cs` as a `String`: std's `FromIterator<&char>` for
/// `String` (reached through `Iterator::collect`), which the documentation
/// gives as the characters pushed one after another, in order.
#[verifier::external_body]
fn string_of_chars(cs: &[char]) -> (r: String)
    ensures
        r@ == cs@,
{
    cs.iter().collect()
}

/// The characters `s[start..end]` as a `String`.
fn string_of_range(s: &Vec<char>, start: usize, end: usize) -> (r: String)
    requires
        start <= end <= s.len(),
    ensures
        r@ == s@.subrange(start as int, end as int),
{
    string_of_chars(vstd::slice::slice_subrange(s.as_slice(), start, end))
}

/// Whether `s[lo..hi]` spells `lit`.
fn range_eq_str(s: &Vec<char>, lo: usize, hi: usize, lit: &str) -> (b: bool)
    requires
        lo <= hi <= s.len(),
    ensures
        b == (s@.subrange(lo as int, hi as int) == lit@),
{
    let n = lit.unicode_len();
    if hi - lo != n {
        return false;
    }
    let mut i: usize = 0;
    while i < n
        invariant
            n == lit@.len(),
            hi - lo == n,
            lo <= hi <= s.len(),
            0 <= i <= n,
            forall|j: int| 0 <= j < i ==> s@[lo + j] == lit@[j],
        decreases n - i,
    {
        if s[lo + i] != lit.get_char(i) {
            assert(s@.subrange(lo as int, hi as int)[i as int] != lit@[i as int]);
            return false;
        }
        i = i + 1;
    }
    assert(s@.subrange(lo as int, hi as int) =~= lit@);
    true
}

/// The kind that the name `s[lo..hi]` stands for.
fn kind_of_range(s: &Vec<char>, lo: usize, hi: usize) -> (k: EventKind)
    requires
        lo <= hi <= s.len(),
    ensures
        k == kind_of_name(s@.subrange(lo as int, hi as int)),
{
    if range_eq_str(s, lo, hi, "chart") {
        EventKind::Chart
    } else if range_eq_str(s, lo, hi, "tap") {
        EventKind::Tap
    } else if range_eq_str(s, lo, hi, "hold") {
        EventKind::Hold
    } else if range_eq_str(s, lo, hi, "flick") {
        EventKind::Flick
    } else if range_eq_str(s, lo, hi, "skyarea") {
        EventKind::SkyArea
    } else if range_eq_str(s, lo, hi, "bpm") {
        EventKind::Bpm
    } else if range_eq_str(s, lo, hi, "track") {
        EventKind::Track
    } else if range_eq_str(s, lo, hi, "lane") {
        EventKind::Lane
    } else if range_eq_str(s, lo, hi, "beam") {
        EventKind::Beam
    } else {
        EventKind::Unknown
    }
}

/// The bounds of the pieces of `s[lo..hi]` between occurrences of `sep`.
fn split_ranges(s: &Vec<char>, lo: usize, hi: usize, sep: char) -> (r: Vec<(usize, usize)>)
    requires
        lo <= hi <= s.len(),
    ensures
        r.len() == split_on(s@.subrange(lo as int, hi as int), sep).len(),
        forall|k: int|
            0 <= k < r.len() ==> {
                &&& lo <= (#[trigger] r@[k]).0 <= r@[k].1 <= hi
                &&& s@.subrange(r@[k].0 as int, r@[k].1 as int) == split_on(
                    s@.subrange(lo as int, hi as int),
                    sep,
                )[k]
            },
{
    let mut r: Vec<(usize, usize)> = Vec::new();
    let mut start = lo;
    let mut i = lo;
    let ghost mut done: Seq<Seq<char>> = Seq::empty();
    assert(s@.subrange(lo as int, lo as int) =~= Seq::<char>::empty());
    assert(done.push(s@.subrange(start as int, i as int)) =~= seq![Seq::<char>::empty()]);
    while i < hi
        invariant
            lo <= start <= i <= hi <= s.len(),
            done.push(s@.subrange(start as int, i as int)) == split_on(
                s@.subrange(lo as int, i as int),
                sep,
            ),
            r.len() == done.len(),
            forall|k: int|
                0 <= k < r.len() ==> {
                    &&& lo <= (#[trigger] r@[k]).0 <= r@[k].1 <= start
                    &&& s@.subrange(r@[k].0 as int, r@[k].1 as int) == done[k]
                },
        decreases hi - i,
    {
        let ghost prev = split_on(s@.subrange(lo as int, i as int), sep);
        assert(s@.subrange(lo as int, i + 1).drop_last() =~= s@.subrange(lo as int, i as int));
        if s[i] == sep {
            r.push((start, i));
            proof {
                done = done.push(s@.subrange(start as int, i as int));
            }
            start = i + 1;
            assert(s@.subrange(start as int, (i + 1) as int) =~= Seq::<char>::empty());
            assert(done.push(s@.subrange(start as int, (i + 1) as int)) =~= prev.push(
                Seq::empty(),
            ));
        } else {
            assert(s@.subrange(start as int, (i + 1) as int) =~= s@.subrange(
                start as int,
                i as int,
            ).push(s@[i as int]));
            assert(done.push(s@.subrange(start as int, (i + 1) as int)) =~= prev.update(
                prev.len() - 1,
                prev.last().push(s@[i as int]),
            ));
        }
        i = i + 1;
    }
    r.push((start, hi));
    proof {
        done = done.push(s@.subrange(start as int, hi as int));
    }
    r
}

/// The pieces of `s[lo..hi]` between occurrences of `sep`.
fn split_range(s: &Vec<char>, lo: usize, hi: usize, sep: char) -> (pieces: Vec<String>)
    requires
        lo <= hi <= s.len(),
    ensures
        pieces@.map_values(|a: String| a@) == split_on(s@.subrange(lo as int, hi as int), sep),
{
    let ranges = split_ranges(s, lo, hi, sep);
    let ghost all = split_on(s@.subrange(lo as int, hi as int), sep);
    let mut pieces: Vec<String> = Vec::new();
    for k in 0..ranges.len()
        invariant
            ranges.len() == all.len(),
            forall|j: int|
                0 <= j < ranges.len() ==> {
                    &&& lo <= (#[trigger] ranges@[j]).0 <= ranges@[j].1 <= hi
                    &&& s@.subrange(ranges@[j].0 as int, ranges@[j].1 as int) == all[j]
                },
            hi <= s.len(),
            pieces.len() == k,
            pieces@.map_values(|a: String| a@) == all.take(k as int),
    {
        let (a, b) = ranges[k];
        let piece = string_of_range(s, a, b);
        let ghost old_pieces = pieces@;
        pieces.push(piece);
        assert forall|j: int| 0 <= j < k + 1 implies #[trigger] pieces@[j]@ == all[j] by {
            if j < k {
                assert(pieces@[j] == old_pieces[j]);
                assert(old_pieces.map_values(|a: String| a@)[j] == all.take(k as int)[j]);
            }
        }
        assert(pieces@.map_values(|a: String| a@) =~= all.take(k + 1));
    }
    assert(all.take(ranges.len() as int) =~= all);
    pieces
}

/// Cuts the line `s[lo..hi]` into its call shape.
pub fn parse_line_range(s: &Vec<char>, lo: usize, hi: usize) -> (r: SpcLine)
    requires
        lo <= hi <= s.len(),
    ensures
        r@ == parse_line_spec(s@.subrange(lo as int, hi as int)),
{
    let ghost line = s@.subrange(lo as int, hi as int);
    proof {
        line.index_of_first_ensures('(');
        line.index_of_last_ensures(')');
    }
    let raw = string_of_range(s, lo, hi);
    let mut p = lo;
    while p < hi && s[p] != '('
        invariant
            lo <= p <= hi <= s.len(),
            forall|j: int| lo <= j < p ==> s@[j] != '(',
        decreases hi - p,
    {
        p = p + 1;
    }
    if p == hi {
        assert(!line.contains('(')) by {
            if line.contains('(') {
                let k = choose|k: int| 0 <= k < line.len() && line[k] == '(';
                assert(s@[lo + k] == '(');
            }
        }
        let r = SpcLine { kind: EventKind::Unknown, args: Vec::new(), raw };
        assert(r@.args =~= Seq::<Seq<char>>::empty());
        return r;
    }
    assert(line.index_of_first('(') == Some((p - lo) as int)) by {
        let k = line.index_of_first('(')->0;
        assert(line[p - lo] == '(');
        assert(s@[lo + k] == '(');
    }
    let mut q = hi;
    while q > lo && s[q - 1] != ')'
        invariant
            lo <= q <= hi <= s.len(),
            forall|j: int| q <= j < hi ==> s@[j] != ')',
        decreases q - lo,
    {
        q = q - 1;
    }
    if q == lo {
        assert(!line.contains(')')) by {
            if line.contains(')') {
                let k = choose|k: int| 0 <= k < line.len() && line[k] == ')';
                assert(s@[lo + k] == ')');
            }
        }
        let r = SpcLine { kind: EventKind::Unknown, args: Vec::new(), raw };
        assert(r@.args =~= Seq::<Seq<char>>::empty());
        return r;
    }
    let q = q - 1;
    assert(line.index_of_last(')') == Some((q - lo) as int)) by {
        let k = line.index_of_last(')')->0;
        assert(line[q - lo] == ')');
        assert(s@[lo + k] == ')');
    }
    if q < p {
        let r = SpcLine { kind: EventKind::Unknown, args: Vec::new(), raw };
        assert(r@.args =~= Seq::<Seq<char>>::empty());
        return r;
    }
    let kind = kind_of_range(s, lo, p);
    let args = split_range(s, p + 1, q, ',');
    assert(line.take((p - lo) as int) =~= s@.subrange(lo as int, p as int));
    assert(line.subrange((p - lo) + 1, (q - lo) as int) =~= s@.subrange(p + 1, q as int));
    SpcLine { kind, args, raw }
}


/// The characters of `s`, in order.
pub fn chars_of(s: &str) -> (v: Vec<char>)
    ensures
        v@ == s@,
{
    broadcast use vstd::string::group_string_axioms;

    let mut v: Vec<char> = Vec::new();
    for c in it: s.chars()
        invariant
            v@ == it.seq().take(it.index() as int),
            it.seq() == s@,
    {
        v.push(c);
    }
    v
}

/// `pieces` trimmed, with the ones that trim to nothing dropped.
pub open spec fn trimmed_nonempty(pieces: Seq<Seq<char>>) -> Seq<Seq<char>> {
    pieces.map_values(|l: Seq<char>| trim(l)).filter(|l: Seq<char>| l.len() > 0)
}

/// The lines of an SPC text that hold something, trimmed, in order
/// (`str::lines`, then `str::trim`, empty lines skipped).
pub open spec fn content_lines(content: Seq<char>) -> Seq<Seq<char>> {
    trimmed_nonempty(split_on(content, '\n'))
}

/// The call shapes of the lines of an SPC text.
pub open spec fn parse_spec(content: Seq<char>) -> Seq<SpcLineView> {
    content_lines(content).map_values(|l: Seq<char>| parse_line_spec(l))
}

proof fn lemma_trimmed_nonempty_push(x: Seq<Seq<char>>, p: Seq<char>)
    ensures
        trimmed_nonempty(x.push(p)) == (if trim(p).len() > 0 {
            trimmed_nonempty(x).push(trim(p))
        } else {
            trimmed_nonempty(x)
        }),
{
    assert(x.push(p).map_values(|l: Seq<char>| trim(l)) =~= x.map_values(|l: Seq<char>| trim(l)).push(
        trim(p),
    ));
    x.map_values(|l: Seq<char>| trim(l)).lemma_filter_push(trim(p), |l: Seq<char>| l.len() > 0);
}

/// Cuts every line of an SPC text that holds something into its call shape.
pub fn parse(content: &str) -> (lines: Vec<SpcLine>)
    ensures
        lines@.map_values(|l: SpcLine| l@) == parse_spec(content@),
{
    let cs = chars_of(content);
    let n = cs.len();
    let ranges = split_ranges(&cs, 0, n, '\n');
    let ghost pieces = split_on(cs@.subrange(0, n as int), '\n');
    assert(cs@.subrange(0, n as int) =~= content@);
    let mut lines: Vec<SpcLine> = Vec::new();
    for k in 0..ranges.len()
        invariant
            n == cs.len(),
            cs@ == content@,
            pieces == split_on(content@, '\n'),
            ranges.len() == pieces.len(),
            forall|j: int|
                0 <= j < ranges.len() ==> {
                    &&& 0 <= (#[trigger] ranges@[j]).0 <= ranges@[j].1 <= n
                    &&& cs@.subrange(ranges@[j].0 as int, ranges@[j].1 as int) == pieces[j]
                },
            lines@.map_values(|l: SpcLine| l@) == trimmed_nonempty(pieces.take(k as int)).map_values(
                |l: Seq<char>| parse_line_spec(l),
            ),
    {
        let (a, b) = ranges[k];
        let (lo, hi) = trim_range(&cs, a, b);
        let ghost before = trimmed_nonempty(pieces.take(k as int));
        proof {
            assert(pieces.take(k + 1) =~= pieces.take(k as int).push(pieces[k as int]));
            lemma_trimmed_nonempty_push(pieces.take(k as int), pieces[k as int]);
        }
        if lo < hi {
            let line = parse_line_range(&cs, lo, hi);
            let ghost old_lines = lines@;
            lines.push(line);
            assert(lines@.map_values(|l: SpcLine| l@) =~= old_lines.map_values(|l: SpcLine| l@).push(
                line@,
            ));
            assert(before.push(trim(pieces[k as int])).map_values(|l: Seq<char>| parse_line_spec(l))
                =~= before.map_values(|l: Seq<char>| parse_line_spec(l)).push(
                parse_line_spec(trim(pieces[k as int])),
            ));
        }
    }
    assert(pieces.take(ranges.len() as int) =~= pieces);
    lines
}


/// The number of arguments an event kind needs before its line is read as
/// that event; kinds that are kept as raw text need none.
pub open spec fn required_args(kind: EventKind) -> nat {
    match kind {
        EventKind::Chart => 2,
        EventKind::Tap => 3,
        EventKind::Hold => 4,
        EventKind::Flick => 5,
        EventKind::SkyArea => 10,
        EventKind::Bpm => 2,
        EventKind::Track => 2,
        EventKind::Lane => 3,
        EventKind::Beam => 0,
        EventKind::Unknown => 0,
    }
}

impl SpcLine {
    /// Whether the line has as many arguments as its kind needs.
    pub fn has_required_args(&self) -> (b: bool)
        ensures
            b == (self.args.len() >= required_args(self.kind)),
    {
        let need: usize = match self.kind {
            EventKind::Chart => 2,
            EventKind::Tap => 3,
            EventKind::Hold => 4,
            EventKind::Flick => 5,
            EventKind::SkyArea => 10,
            EventKind::Bpm => 2,
            EventKind::Track => 2,
            EventKind::Lane => 3,
            EventKind::Beam => 0,
            EventKind::Unknown => 0,
        };
        self.args.len() >= need
    }
}

/// One formatted line of an SPC text to be written. `deferred` lines (raw
/// text kept from unknown or beam lines) go after all the others.
pub struct SpcOutLine {
    pub text: String,
    pub deferred: bool,
}

/// Each line followed by a line break.
pub open spec fn lines_text(ls: Seq<Seq<char>>) -> Seq<char>
    decreases ls.len(),
{
    if ls.len() == 0 {
        Seq::empty()
    } else {
        lines_text(ls.drop_last()) + ls.last() + seq!['\n']
    }
}

/// The lines in the order they are written: the formatted events in their
/// order, then the deferred raw lines in theirs.
pub open spec fn spc_output_order(out: Seq<SpcOutLine>) -> Seq<Seq<char>> {
    out.filter(|l: SpcOutLine| !l.deferred).map_values(|l: SpcOutLine| l.text@) + out.filter(
        |l: SpcOutLine| l.deferred,
    ).map_values(|l: SpcOutLine| l.text@)
}

/// The text of an SPC file made of the given lines: the lines joined by line
/// breaks, with a final line break (a lone line break when there is no line).
pub open spec fn spc_text(ls: Seq<Seq<char>>) -> Seq<char> {
    if ls.len() == 0 {
        seq!['\n']
    } else {
        lines_text(ls)
    }
}

proof fn lemma_lines_text_push(ls: Seq<Seq<char>>, l: Seq<char>)
    ensures
        lines_text(ls.push(l)) == lines_text(ls) + l + seq!['\n'],
{
    assert(ls.push(l).drop_last() =~= ls);
}

/// Writes the lines of an SPC file: the formatted events first, then the
/// deferred raw lines, each followed by a line break.
pub fn to_spc(lines: &Vec<SpcOutLine>) -> (text: String)
    ensures
        text@ == spc_text(spc_output_order(lines@)),
{
    let ghost first = lines@.filter(|l: SpcOutLine| !l.deferred).map_values(
        |l: SpcOutLine| l.text@,
    );
    let ghost second = lines@.filter(|l: SpcOutLine| l.deferred).map_values(
        |l: SpcOutLine| l.text@,
    );
    proof {
        reveal_strlit("\n");
    }
    let mut text = String::new();
    let mut count: usize = 0;
    for i in 0..lines.len()
        invariant
            text@ == lines_text(
                lines@.take(i as int).filter(|l: SpcOutLine| !l.deferred).map_values(
                    |l: SpcOutLine| l.text@,
                ),
            ),
            "\n"@ == seq!['\n'],
    {
        let ghost pre = lines@.take(i as int);
        assert(lines@.take(i + 1) =~= pre.push(lines@[i as int]));
        proof {
            pre.lemma_filter_push(lines@[i as int], |l: SpcOutLine| !l.deferred);
        }
        if !lines[i].deferred {
            let ghost f = pre.filter(|l: SpcOutLine| !l.deferred);
            assert(f.push(lines@[i as int]).map_values(|l: SpcOutLine| l.text@) =~= f.map_values(
                |l: SpcOutLine| l.text@,
            ).push(lines@[i as int].text@));
            proof {
                lemma_lines_text_push(f.map_values(|l: SpcOutLine| l.text@), lines@[i as int].text@);
            }
            text.append(lines[i].text.as_str());
            text.append("\n");
        }
    }
    assert(lines@.take(lines.len() as int) =~= lines@);
    for i in 0..lines.len()
        invariant
            text@ == lines_text(
                first + lines@.take(i as int).filter(|l: SpcOutLine| l.deferred).map_values(
                    |l: SpcOutLine| l.text@,
                ),
            ),
            first == lines@.filter(|l: SpcOutLine| !l.deferred).map_values(
                |l: SpcOutLine| l.text@,
            ),
            "\n"@ == seq!['\n'],
    {
        let ghost pre = lines@.take(i as int);
        assert(lines@.take(i + 1) =~= pre.push(lines@[i as int]));
        proof {
            pre.lemma_filter_push(lines@[i as int], |l: SpcOutLine| l.deferred);
        }
        if lines[i].deferred {
            let ghost f = pre.filter(|l: SpcOutLine| l.deferred);
            let ghost m = f.map_values(|l: SpcOutLine| l.text@);
            assert(f.push(lines@[i as int]).map_values(|l: SpcOutLine| l.text@) =~= m.push(
                lines@[i as int].text@,
            ));
            assert(first + m.push(lines@[i as int].text@) =~= (first + m).push(
                lines@[i as int].text@,
            ));
            proof {
                lemma_lines_text_push(first + m, lines@[i as int].text@);
            }
            text.append(lines[i].text.as_str());
            text.append("\n");
        }
    }
    assert(first + lines@.take(lines.len() as int).filter(|l: SpcOutLine| l.deferred).map_values(
        |l: SpcOutLine| l.text@,
    ) =~= spc_output_order(lines@));
    if text.unicode_len() == 0 {
        proof {
            if spc_output_order(lines@).len() > 0 {
                let ls = spc_output_order(lines@);
                assert(lines_text(ls).len() >= 1);
            }
        }
        return String::from_str("\n");
    }
    text
}


/// A line that writes and reads back unchanged: it holds something, has no
/// white space at either end, and no line break.
pub open spec fn is_plain_line(l: Seq<char>) -> bool {
    &&& l.len() > 0
    &&& trim(l) == l
    &&& !l.contains('\n')
}

proof fn lemma_split_on_append_plain(a: Seq<char>, l: Seq<char>, sep: char)
    requires
        !l.contains(sep),
    ensures
        split_on(a, sep).len() >= 1,
        split_on(a + l, sep) == split_on(a, sep).update(
            split_on(a, sep).len() - 1,
            split_on(a, sep).last() + l,
        ),
    decreases l.len(),
{
    lemma_split_on_nonempty(a, sep);
    if l.len() == 0 {
        assert(a + l =~= a);
        assert(split_on(a, sep).last() + l =~= split_on(a, sep).last());
        assert(split_on(a, sep).update(split_on(a, sep).len() - 1, split_on(a, sep).last())
            =~= split_on(a, sep));
    } else {
        let l0 = l.drop_last();
        assert(!l0.contains(sep)) by {
            if l0.contains(sep) {
                let k = choose|k: int| 0 <= k < l0.len() && l0[k] == sep;
                assert(l[k] == sep);
            }
        }
        lemma_split_on_append_plain(a, l0, sep);
        assert((a + l).drop_last() =~= a + l0);
        assert((a + l).last() == l.last());
        assert(l.last() != sep) by {
            assert(l[l.len() - 1] == l.last());
        }
        lemma_split_on_nonempty(a + l0, sep);
        let prev = split_on(a + l0, sep);
        assert(prev.len() == split_on(a, sep).len());
        assert(prev.last() == split_on(a, sep).last() + l0);
        assert(prev.last().push(l.last()) =~= split_on(a, sep).last() + l);
        assert(prev.update(prev.len() - 1, prev.last().push(l.last())) =~= split_on(a, sep).update(
            split_on(a, sep).len() - 1,
            split_on(a, sep).last() + l,
        ));
    }
}

proof fn lemma_split_lines_text(ls: Seq<Seq<char>>)
    requires
        forall|i: int| 0 <= i < ls.len() ==> !(#[trigger] ls[i]).contains('\n'),
    ensures
        split_on(lines_text(ls), '\n') == ls.push(Seq::empty()),
    decreases ls.len(),
{
    if ls.len() == 0 {
        assert(split_on(Seq::<char>::empty(), '\n') =~= seq![Seq::<char>::empty()]);
        assert(ls.push(Seq::empty()) =~= seq![Seq::<char>::empty()]);
    } else {
        let init = ls.drop_last();
        let l = ls.last();
        assert(forall|i: int| 0 <= i < init.len() ==> init[i] == ls[i]);
        lemma_split_lines_text(init);
        let a = lines_text(init);
        assert(!l.contains('\n')) by {
            assert(ls[ls.len() - 1] == l);
        }
        lemma_split_on_append_plain(a, l, '\n');
        let t = a + l + seq!['\n'];
        assert(lines_text(ls) == t);
        assert(t.drop_last() =~= a + l);
        assert(t.last() == '\n');
        assert(split_on(a, '\n') == init.push(Seq::empty()));
        assert(Seq::<char>::empty() + l =~= l);
        assert(split_on(a + l, '\n') =~= ls);
    }
}

proof fn lemma_trimmed_nonempty_plain(ls: Seq<Seq<char>>)
    requires
        forall|i: int| 0 <= i < ls.len() ==> is_plain_line(#[trigger] ls[i]),
    ensures
        trimmed_nonempty(ls) == ls,
    decreases ls.len(),
{
    if ls.len() == 0 {
        reveal(Seq::filter);
        assert(ls.map_values(|l: Seq<char>| trim(l)) =~= ls);
    } else {
        let init = ls.drop_last();
        assert(forall|i: int| 0 <= i < init.len() ==> init[i] == ls[i]);
        lemma_trimmed_nonempty_plain(init);
        assert(ls =~= init.push(ls.last()));
        lemma_trimmed_nonempty_push(init, ls.last());
        assert(is_plain_line(ls[ls.len() - 1]));
    }
}

/// Reading back what `to_spc` writes: when every line holds something, has
/// no white space at its ends and no line break, the lines of the written
/// text are exactly the written lines, in the order they were written.
pub proof fn lemma_written_lines_read_back(out: Seq<SpcOutLine>)
    requires
        forall|i: int| 0 <= i < out.len() ==> is_plain_line((#[trigger] out[i]).text@),
    ensures
        content_lines(spc_text(spc_output_order(out))) == spc_output_order(out),
{
    let ls = spc_output_order(out);
    let f = out.filter(|l: SpcOutLine| !l.deferred);
    let g = out.filter(|l: SpcOutLine| l.deferred);
    assert forall|i: int| 0 <= i < f.len() implies is_plain_line((#[trigger] f[i]).text@) by {
        out.lemma_filter_contains_rev(|l: SpcOutLine| !l.deferred, f[i]);
        let k = choose|k: int| 0 <= k < out.len() && out[k] == f[i];
        assert(out[k] == f[i]);
    }
    assert forall|i: int| 0 <= i < g.len() implies is_plain_line((#[trigger] g[i]).text@) by {
        out.lemma_filter_contains_rev(|l: SpcOutLine| l.deferred, g[i]);
        let k = choose|k: int| 0 <= k < out.len() && out[k] == g[i];
        assert(out[k] == g[i]);
    }
    let fm = f.map_values(|l: SpcOutLine| l.text@);
    let gm = g.map_values(|l: SpcOutLine| l.text@);
    assert(ls == fm + gm);
    assert forall|i: int| 0 <= i < ls.len() implies is_plain_line(#[trigger] ls[i]) by {
        if i < fm.len() {
            assert(ls[i] == f[i].text@);
        } else {
            assert(ls[i] == g[i - fm.len()].text@);
        }
    }
    assert forall|i: int| 0 <= i < ls.len() implies !(#[trigger] ls[i]).contains('\n') by {
        assert(is_plain_line(ls[i]));
    }
    if ls.len() == 0 {
        let t = seq!['\n'];
        assert(t == Seq::<char>::empty() + Seq::<char>::empty() + seq!['\n']);
        lemma_split_lines_text(seq![Seq::<char>::empty()]);
        assert(lines_text(seq![Seq::<char>::empty()]) =~= lines_text(Seq::<Seq<char>>::empty())
            + Seq::<char>::empty() + seq!['\n']) by {
            assert(seq![Seq::<char>::empty()].drop_last() =~= Seq::<Seq<char>>::empty());
        }
        assert(lines_text(seq![Seq::<char>::empty()]) =~= t);
        let pieces = seq![Seq::<char>::empty()].push(Seq::<char>::empty());
        assert(split_on(t, '\n') == pieces);
        let e = Seq::<Seq<char>>::empty();
        assert(e.map_values(|l: Seq<char>| trim(l)) =~= e);
        assert(trimmed_nonempty(e) =~= e) by {
            reveal(Seq::filter);
        }
        assert(trim(Seq::<char>::empty()) =~= Seq::<char>::empty());
        assert(e.push(Seq::<char>::empty()) =~= seq![Seq::<char>::empty()]);
        lemma_trimmed_nonempty_push(e, Seq::<char>::empty());
        lemma_trimmed_nonempty_push(seq![Seq::<char>::empty()], Seq::<char>::empty());
        assert(trimmed_nonempty(pieces) =~= e);
    } else {
        lemma_split_lines_text(ls);
        lemma_trimmed_nonempty_push(ls, Seq::empty());
        lemma_trimmed_nonempty_plain(ls);
    }
}

/// Arguments joined by commas (at least one argument).
pub open spec fn join_args(args: Seq<Seq<char>>) -> Seq<char>
    decreases args.len(),
{
    if args.len() <= 1 {
        if args.len() == 1 {
            args[0]
        } else {
            Seq::empty()
        }
    } else {
        join_args(args.drop_last()) + seq![','] + args.last()
    }
}

/// The text of a call: the name, then the arguments joined by commas
/// between brackets.
pub open spec fn call_text(name: Seq<char>, args: Seq<Seq<char>>) -> Seq<char> {
    name + seq!['('] + join_args(args) + seq![')']
}

proof fn lemma_split_join_args(args: Seq<Seq<char>>)
    requires
        args.len() >= 1,
        forall|i: int| 0 <= i < args.len() ==> !(#[trigger] args[i]).contains(','),
    ensures
        split_on(join_args(args), ',') == args,
    decreases args.len(),
{
    let e = Seq::<char>::empty();
    if args.len() == 1 {
        assert(!args[0].contains(','));
        lemma_split_on_append_plain(e, args[0], ',');
        assert(e + args[0] =~= args[0]);
        assert(split_on(e, ',') =~= seq![e]);
        assert(seq![e].update(0, e + args[0]) =~= args);
    } else {
        let init = args.drop_last();
        assert(forall|i: int| 0 <= i < init.len() ==> init[i] == args[i]);
        lemma_split_join_args(init);
        let a = join_args(init) + seq![','];
        assert(a.drop_last() =~= join_args(init));
        assert(a.last() == ',');
        assert(split_on(a, ',') == init.push(e));
        assert(!args.last().contains(',')) by {
            assert(args[args.len() - 1] == args.last());
        }
        lemma_split_on_append_plain(a, args.last(), ',');
        assert(e + args.last() =~= args.last());
        assert(init.push(e).update(init.len() as int, args.last()) =~= args);
    }
}

/// Reading a written call gives back its kind, its arguments and its text:
/// a name without `(` and arguments without `,` are cut back into exactly
/// that name's kind and those arguments.
pub proof fn lemma_call_text_read_back(name: Seq<char>, args: Seq<Seq<char>>)
    requires
        !name.contains('('),
        args.len() >= 1,
        forall|i: int| 0 <= i < args.len() ==> !(#[trigger] args[i]).contains(','),
    ensures
        parse_line_spec(call_text(name, args)) == (SpcLineView {
            kind: kind_of_name(name),
            args,
            raw: call_text(name, args),
        }),
{
    let line = call_text(name, args);
    let j = join_args(args);
    let p = name.len() as int;
    let q = line.len() - 1;
    assert(line.len() == name.len() + 1 + j.len() + 1);
    assert(line[p] == '(');
    assert(line[q] == ')');
    assert forall|k: int| 0 <= k < p implies line[k] != '(' by {
        assert(line[k] == name[k]);
        if name[k] == '(' {
            assert(name.contains('('));
        }
    }
    line.index_of_first_ensures('(');
    line.index_of_last_ensures(')');
    assert(line.contains('(')) by {
        assert(line[p] == '(');
    }
    assert(line.contains(')')) by {
        assert(line[q] == ')');
    }
    assert(line.index_of_first('(') == Some(p));
    assert(line.index_of_last(')') == Some(q));
    assert(line.take(p) =~= name);
    assert(line.subrange(p + 1, q) =~= j);
    lemma_split_join_args(args);
}

/// Reading what `to_spc` wrote from plain lines cuts each written line, in
/// the order in which they were written.
pub proof fn lemma_parse_written_text(out: Seq<SpcOutLine>)
    requires
        forall|i: int| 0 <= i < out.len() ==> is_plain_line((#[trigger] out[i]).text@),
    ensures
        parse_spec(spc_text(spc_output_order(out))) == spc_output_order(out).map_values(
            |l: Seq<char>| parse_line_spec(l),
        ),
{
    lemma_written_lines_read_back(out);
}

/// Event lines as they are written, with the fields each event writes (a
/// chart header 2, a tap 3, a hold 4, a flick 5, a sky area 10 or 11 with
/// its group, a BPM change 2 to 4, a track speed 2, a lane switch 3), are
/// read back as that event with all the arguments it needs.
pub proof fn lemma_written_events_are_read(args: Seq<Seq<char>>)
    requires
        forall|i: int| 0 <= i < args.len() ==> !(#[trigger] args[i]).contains(','),
    ensures
        args.len() == 2 ==> parse_line_spec(call_text("chart"@, args)).kind == EventKind::Chart
            && parse_line_spec(call_text("chart"@, args)).args.len() >= required_args(EventKind::Chart),
        args.len() == 3 ==> parse_line_spec(call_text("tap"@, args)).kind == EventKind::Tap
            && parse_line_spec(call_text("tap"@, args)).args.len() >= required_args(EventKind::Tap),
        args.len() == 4 ==> parse_line_spec(call_text("hold"@, args)).kind == EventKind::Hold
            && parse_line_spec(call_text("hold"@, args)).args.len() >= required_args(EventKind::Hold),
        args.len() == 5 ==> parse_line_spec(call_text("flick"@, args)).kind == EventKind::Flick
            && parse_line_spec(call_text("flick"@, args)).args.len() >= required_args(EventKind::Flick),
        args.len() == 10 || args.len() == 11 ==> parse_line_spec(call_text("skyarea"@, args)).kind == EventKind::SkyArea
            && parse_line_spec(call_text("skyarea"@, args)).args.len() >= required_args(EventKind::SkyArea),
        args.len() == 2 || args.len() == 3 || args.len() == 4 ==> parse_line_spec(call_text("bpm"@, args)).kind == EventKind::Bpm
            && parse_line_spec(call_text("bpm"@, args)).args.len() >= required_args(EventKind::Bpm),
        args.len() == 2 ==> parse_line_spec(call_text("track"@, args)).kind == EventKind::Track
            && parse_line_spec(call_text("track"@, args)).args.len() >= required_args(EventKind::Track),
        args.len() == 3 ==> parse_line_spec(call_text("lane"@, args)).kind == EventKind::Lane
            && parse_line_spec(call_text("lane"@, args)).args.len() >= required_args(EventKind::Lane),
{
    reveal_strlit("chart");
    reveal_strlit("tap");
    reveal_strlit("hold");
    reveal_strlit("flick");
    reveal_strlit("skyarea");
    reveal_strlit("bpm");
    reveal_strlit("track");
    reveal_strlit("lane");
    reveal_strlit("beam");
    assert("flick"@ != "chart"@) by {
        assert("flick"@[0] != "chart"@[0]);
    }
    assert("bpm"@ != "tap"@) by {
        assert("bpm"@[0] != "tap"@[0]);
    }
    assert("track"@ != "chart"@) by {
        assert("track"@[0] != "chart"@[0]);
    }
    assert("track"@ != "flick"@) by {
        assert("track"@[0] != "flick"@[0]);
    }
    assert("lane"@ != "hold"@) by {
        assert("lane"@[0] != "hold"@[0]);
    }
    assert(!"chart"@.contains('('));
    if args.len() >= 1 {
        lemma_call_text_read_back("chart"@, args);
    }
    assert(!"tap"@.contains('('));
    if args.len() >= 1 {
        lemma_call_text_read_back("tap"@, args);
    }
    assert(!"hold"@.contains('('));
    if args.len() >= 1 {
        lemma_call_text_read_back("hold"@, args);
    }
    assert(!"flick"@.contains('('));
    if args.len() >= 1 {
        lemma_call_text_read_back("flick"@, args);
    }
    assert(!"skyarea"@.contains('('));
    if args.len() >= 1 {
        lemma_call_text_read_back("skyarea"@, args);
    }
    assert(!"bpm"@.contains('('));
    if args.len() >= 1 {
        lemma_call_text_read_back("bpm"@, args);
    }
    assert(!"track"@.contains('('));
    if args.len() >= 1 {
        lemma_call_text_read_back("track"@, args);
    }
    assert(!"lane"@.contains('('));
    if args.len() >= 1 {
        lemma_call_text_read_back("lane"@, args);
    }
}

} // verus!
