//! The map overview file: where it lies in the game's directory, and the
//! fields of it the radar uses. Each line of the file is split into
//! whitespace-separated tokens; a line whose first token is one of the
//! quoted keys `"pos_x"`, `"pos_y"`, `"scale"` or `"rotate"` sets that
//! field from its second token, with surrounding double quotes removed.
//! A later line for the same key overrides an earlier one.
use vstd::prelude::*;
use vstd::string::StringExecFns;

verus! {

broadcast use vstd::string::group_string_axioms;

/// Whether `c` has Unicode's White_Space property, which is what
/// `char::is_whitespace` tests and what separates the tokens of a line.
pub open spec fn is_space(c: char) -> bool {
    let u = c as u32;
    ||| 0x09 <= u <= 0x0d
    ||| u == 0x20
    ||| u == 0x85
    ||| u == 0xa0
    ||| u == 0x1680
    ||| 0x2000 <= u <= 0x200a
    ||| u == 0x2028
    ||| u == 0x2029
    ||| u == 0x202f
    ||| u == 0x205f
    ||| u == 0x3000
}

/// Tests `is_space`.
pub fn char_is_space(c: char) -> (res: bool)
    ensures
        res == is_space(c),
{
    let u = c as u32;
    (0x09 <= u && u <= 0x0d) || u == 0x20 || u == 0x85 || u == 0xa0 || u == 0x1680 || (0x2000
        <= u && u <= 0x200a) || u == 0x2028 || u == 0x2029 || u == 0x202f || u == 0x205f || u
        == 0x3000
}

/// Length of the run of whitespace at the start of `s`.
pub open spec fn space_run(s: Seq<char>) -> nat
    decreases s.len(),
{
    if s.len() > 0 && is_space(s[0]) {
        1 + space_run(s.drop_first())
    } else {
        0
    }
}

/// Length of the run of non-whitespace at the start of `s`.
pub open spec fn word_run(s: Seq<char>) -> nat
    decreases s.len(),
{
    if s.len() > 0 && !is_space(s[0]) {
        1 + word_run(s.drop_first())
    } else {
        0
    }
}

/// `s` from its first token on (its leading whitespace dropped).
pub open spec fn trim_start(s: Seq<char>) -> Seq<char> {
    s.skip(space_run(s) as int)
}

/// The first whitespace-separated token of `s`, or the empty string.
pub open spec fn first_token(s: Seq<char>) -> Seq<char> {
    trim_start(s).take(word_run(trim_start(s)) as int)
}

/// What follows the first token of `s`.
pub open spec fn after_first_token(s: Seq<char>) -> Seq<char> {
    trim_start(s).skip(word_run(trim_start(s)) as int)
}

/// The second whitespace-separated token of `s`, or the empty string.
pub open spec fn second_token(s: Seq<char>) -> Seq<char> {
    first_token(after_first_token(s))
}

/// Length of the run of double quotes at the start of `s`.
pub open spec fn quote_run(s: Seq<char>) -> nat
    decreases s.len(),
{
    if s.len() > 0 && s[0] == '"' {
        1 + quote_run(s.drop_first())
    } else {
        0
    }
}

/// Length of the run of double quotes at the end of `s`.
pub open spec fn trailing_quote_run(s: Seq<char>) -> nat
    decreases s.len(),
{
    if s.len() > 0 && s.last() == '"' {
        1 + trailing_quote_run(s.drop_last())
    } else {
        0
    }
}

/// `s` with every leading and trailing double quote removed.
pub open spec fn trim_quotes(s: Seq<char>) -> Seq<char> {
    let t = s.skip(quote_run(s) as int);
    t.take(t.len() - trailing_quote_run(t))
}

/// Position of the first line feed in `s`, or its length if it has none.
pub open spec fn newline_index(s: Seq<char>) -> nat
    decreases s.len(),
{
    if s.len() == 0 || s[0] == '\n' {
        0
    } else {
        1 + newline_index(s.drop_first())
    }
}

/// The key `"pos_x"`, quotes included.
pub open spec fn key_pos_x() -> Seq<char> {
    seq!['"', 'p', 'o', 's', '_', 'x', '"']
}

/// The key `"pos_y"`, quotes included.
pub open spec fn key_pos_y() -> Seq<char> {
    seq!['"', 'p', 'o', 's', '_', 'y', '"']
}

/// The key `"scale"`, quotes included.
pub open spec fn key_scale() -> Seq<char> {
    seq!['"', 's', 'c', 'a', 'l', 'e', '"']
}

/// The key `"rotate"`, quotes included.
pub open spec fn key_rotate() -> Seq<char> {
    seq!['"', 'r', 'o', 't', 'a', 't', 'e', '"']
}

/// The fields of an overview, as text.
pub struct OverviewFieldsView {
    pub pos_x: Option<Seq<char>>,
    pub pos_y: Option<Seq<char>>,
    pub scale: Option<Seq<char>>,
    pub already_rotated: bool,
}

/// The fields before any line is read: no coordinates, and the image taken
/// as already rotated.
pub open spec fn initial_fields() -> OverviewFieldsView {
    OverviewFieldsView { pos_x: None, pos_y: None, scale: None, already_rotated: true }
}

/// The fields after reading one line.
pub open spec fn apply_line(f: OverviewFieldsView, line: Seq<char>) -> OverviewFieldsView {
    let key = first_token(line);
    let value = trim_quotes(second_token(line));
    if key == key_pos_x() {
        OverviewFieldsView { pos_x: Some(value), ..f }
    } else if key == key_pos_y() {
        OverviewFieldsView { pos_y: Some(value), ..f }
    } else if key == key_rotate() {
        OverviewFieldsView { already_rotated: value == seq!['1'], ..f }
    } else if key == key_scale() {
        OverviewFieldsView { scale: Some(value), ..f }
    } else {
        f
    }
}

/// The fields after reading, line by line, the text `s`.
pub open spec fn read_lines(f: OverviewFieldsView, s: Seq<char>) -> OverviewFieldsView
    decreases s.len(),
{
    let k = newline_index(s);
    let g = apply_line(f, s.take(k as int));
    if k < s.len() {
        read_lines(g, s.skip(k + 1int))
    } else {
        g
    }
}

/// The fields that the overview text `text` sets.
pub open spec fn overview_fields(text: Seq<char>) -> OverviewFieldsView {
    read_lines(initial_fields(), text)
}

/// Wraps `String::push`, which appends `c` to the end of `s`.
#[verifier::external_body]
pub(crate) fn string_push(s: &mut String, c: char)
    ensures
        final(s)@ == old(s)@.push(c),
{
    s.push(c);
}

/// The characters of `text`, in order.
fn collect_chars(text: &str) -> (res: Vec<char>)
    ensures
        res@ == text@,
{
    let mut out: Vec<char> = Vec::new();
    for c in it: text.chars()
        invariant
            out@ == it.seq().take(it.index()),
    {
        out.push(c);
    }
    out
}

fn key_chars_pos_x() -> (v: Vec<char>)
    ensures
        v@ == key_pos_x(),
{
    vec!['"', 'p', 'o', 's', '_', 'x', '"']
}

fn key_chars_pos_y() -> (v: Vec<char>)
    ensures
        v@ == key_pos_y(),
{
    vec!['"', 'p', 'o', 's', '_', 'y', '"']
}

fn key_chars_scale() -> (v: Vec<char>)
    ensures
        v@ == key_scale(),
{
    vec!['"', 's', 'c', 'a', 'l', 'e', '"']
}

fn key_chars_rotate() -> (v: Vec<char>)
    ensures
        v@ == key_rotate(),
{
    vec!['"', 'r', 'o', 't', 'a', 't', 'e', '"']
}

proof fn lemma_space_run(s: Seq<char>, k: int)
    requires
        0 <= k <= s.len(),
        forall|i: int| 0 <= i < k ==> is_space(#[trigger] s[i]),
        k == s.len() || !is_space(s[k]),
    ensures
        space_run(s) == k,
    decreases k,
{
    if k > 0 {
        lemma_space_run(s.drop_first(), k - 1);
    }
}

proof fn lemma_word_run(s: Seq<char>, k: int)
    requires
        0 <= k <= s.len(),
        forall|i: int| 0 <= i < k ==> !is_space(#[trigger] s[i]),
        k == s.len() || is_space(s[k]),
    ensures
        word_run(s) == k,
    decreases k,
{
    if k > 0 {
        lemma_word_run(s.drop_first(), k - 1);
    }
}

proof fn lemma_quote_run(s: Seq<char>, k: int)
    requires
        0 <= k <= s.len(),
        forall|i: int| 0 <= i < k ==> #[trigger] s[i] == '"',
        k == s.len() || s[k] != '"',
    ensures
        quote_run(s) == k,
    decreases k,
{
    if k > 0 {
        lemma_quote_run(s.drop_first(), k - 1);
    }
}

proof fn lemma_trailing_quote_run(s: Seq<char>, k: int)
    requires
        0 <= k <= s.len(),
        forall|i: int| s.len() - k <= i < s.len() ==> #[trigger] s[i] == '"',
        k == s.len() || s[s.len() - k - 1] != '"',
    ensures
        trailing_quote_run(s) == k,
    decreases k,
{
    if k > 0 {
        lemma_trailing_quote_run(s.drop_last(), k - 1);
    }
}

proof fn lemma_newline_index(s: Seq<char>, k: int)
    requires
        0 <= k <= s.len(),
        forall|i: int| 0 <= i < k ==> #[trigger] s[i] != '\n',
        k == s.len() || s[k] == '\n',
    ensures
        newline_index(s) == k,
    decreases k,
{
    if k > 0 {
        lemma_newline_index(s.drop_first(), k - 1);
    }
}

/// End of the whitespace run of `chars` that starts at `start`, stopping at `end`.
fn skip_spaces(chars: &Vec<char>, start: usize, end: usize) -> (r: usize)
    requires
        start <= end <= chars@.len(),
    ensures
        start <= r <= end,
        r - start == space_run(chars@.subrange(start as int, end as int)),
{
    let mut i = start;
    while i < end && char_is_space(chars[i])
        invariant
            start <= i <= end <= chars@.len(),
            forall|j: int| start <= j < i ==> is_space(#[trigger] chars@[j]),
        decreases end - i,
    {
        i = i + 1;
    }
    proof {
        lemma_space_run(chars@.subrange(start as int, end as int), i - start);
    }
    i
}

/// End of the non-whitespace run of `chars` that starts at `start`, stopping at `end`.
fn skip_word(chars: &Vec<char>, start: usize, end: usize) -> (r: usize)
    requires
        start <= end <= chars@.len(),
    ensures
        start <= r <= end,
        r - start == word_run(chars@.subrange(start as int, end as int)),
{
    let mut i = start;
    while i < end && !char_is_space(chars[i])
        invariant
            start <= i <= end <= chars@.len(),
            forall|j: int| start <= j < i ==> !is_space(#[trigger] chars@[j]),
        decreases end - i,
    {
        i = i + 1;
    }
    proof {
        lemma_word_run(chars@.subrange(start as int, end as int), i - start);
    }
    i
}

/// Position of the first line feed in `chars` at or after `start`, or the length.
fn find_newline(chars: &Vec<char>, start: usize) -> (r: usize)
    requires
        start <= chars@.len(),
    ensures
        start <= r <= chars@.len(),
        r - start == newline_index(chars@.subrange(start as int, chars@.len() as int)),
{
    let mut i = start;
    while i < chars.len() && chars[i] != '\n'
        invariant
            start <= i <= chars@.len(),
            forall|j: int| start <= j < i ==> #[trigger] chars@[j] != '\n',
        decreases chars@.len() - i,
    {
        i = i + 1;
    }
    proof {
        lemma_newline_index(chars@.subrange(start as int, chars@.len() as int), i - start);
    }
    i
}

/// Bounds of `chars[start..end]` with its leading and trailing double quotes removed.
fn trim_quote_bounds(chars: &Vec<char>, start: usize, end: usize) -> (r: (usize, usize))
    requires
        start <= end <= chars@.len(),
    ensures
        start <= r.0 <= r.1 <= end,
        chars@.subrange(r.0 as int, r.1 as int) == trim_quotes(
            chars@.subrange(start as int, end as int),
        ),
{
    let ghost s = chars@.subrange(start as int, end as int);
    let mut a = start;
    while a < end && chars[a] == '"'
        invariant
            start <= a <= end <= chars@.len(),
            forall|j: int| start <= j < a ==> #[trigger] chars@[j] == '"',
        decreases end - a,
    {
        a = a + 1;
    }
    proof {
        lemma_quote_run(s, a - start);
    }
    let mut b = end;
    while b > a && chars[b - 1] == '"'
        invariant
            a <= b <= end <= chars@.len(),
            forall|j: int| b <= j < end ==> #[trigger] chars@[j] == '"',
        decreases b - a,
    {
        b = b - 1;
    }
    proof {
        let t = s.skip(a - start);
        assert(t =~= chars@.subrange(a as int, end as int));
        lemma_trailing_quote_run(t, end - b);
        assert(t.take(t.len() - (end - b)) =~= chars@.subrange(a as int, b as int));
    }
    (a, b)
}

/// Whether `chars[start..end]` is `lit`.
fn range_is(chars: &Vec<char>, start: usize, end: usize, lit: &Vec<char>) -> (res: bool)
    requires
        start <= end <= chars@.len(),
    ensures
        res == (chars@.subrange(start as int, end as int) == lit@),
{
    if end - start != lit.len() {
        return false;
    }
    let mut i: usize = 0;
    while i < lit.len()
        invariant
            end - start == lit@.len(),
            start <= end <= chars@.len(),
            i <= lit@.len(),
            forall|j: int| 0 <= j < i ==> chars@[start + j] == lit@[j],
        decreases lit@.len() - i,
    {
        if chars[start + i] != lit[i] {
            assert(chars@.subrange(start as int, end as int)[i as int] != lit@[i as int]);
            return false;
        }
        i = i + 1;
    }
    assert(chars@.subrange(start as int, end as int) =~= lit@);
    true
}

/// The string `chars[start..end]`.
fn string_of(chars: &Vec<char>, start: usize, end: usize) -> (res: String)
    requires
        start <= end <= chars@.len(),
    ensures
        res@ == chars@.subrange(start as int, end as int),
{
    let mut out = String::new();
    let mut i = start;
    while i < end
        invariant
            start <= i <= end <= chars@.len(),
            out@ == chars@.subrange(start as int, i as int),
        decreases end - i,
    {
        string_push(&mut out, chars[i]);
        i = i + 1;
        assert(out@ =~= chars@.subrange(start as int, i as int));
    }
    out
}

/// The fields of an overview file that the radar reads, as text.
pub struct OverviewFields {
    /// The second token of the last `"pos_x"` line, unquoted.
    pub pos_x: Option<String>,
    /// The second token of the last `"pos_y"` line, unquoted.
    pub pos_y: Option<String>,
    /// The second token of the last `"scale"` line, unquoted.
    pub scale: Option<String>,
    /// Whether the radar image is already the right way up: true unless
    /// the last `"rotate"` line holds something other than `1`.
    pub already_rotated: bool,
}

/// The characters of an optional string.
pub open spec fn opt_chars(o: Option<String>) -> Option<Seq<char>> {
    match o {
        Some(s) => Some(s@),
        None => None,
    }
}

impl View for OverviewFields {
    type V = OverviewFieldsView;

    open spec fn view(&self) -> OverviewFieldsView {
        OverviewFieldsView {
            pos_x: opt_chars(self.pos_x),
            pos_y: opt_chars(self.pos_y),
            scale: opt_chars(self.scale),
            already_rotated: self.already_rotated,
        }
    }
}

/// Reads the fields of an overview file from its text.
pub fn parse_overview(text: &str) -> (res: OverviewFields)
    ensures
        res@ == overview_fields(text@),
{
    let chars = collect_chars(text);
    let n = chars.len();
    let k_x = key_chars_pos_x();
    let k_y = key_chars_pos_y();
    let k_scale = key_chars_scale();
    let k_rotate = key_chars_rotate();
    let mut f = OverviewFields { pos_x: None, pos_y: None, scale: None, already_rotated: true };
    let mut pos: usize = 0;
    assert(chars@.subrange(0, n as int) =~= chars@);
    loop
        invariant
            pos <= n,
            n == chars@.len(),
            chars@ == text@,
            k_x@ == key_pos_x(),
            k_y@ == key_pos_y(),
            k_scale@ == key_scale(),
            k_rotate@ == key_rotate(),
            read_lines(f@, chars@.subrange(pos as int, n as int)) == overview_fields(text@),
        decreases n - pos,
    {
        let ghost rest = chars@.subrange(pos as int, n as int);
        let ghost before = f@;
        let le = find_newline(&chars, pos);
        let a = skip_spaces(&chars, pos, le);
        let b = skip_word(&chars, a, le);
        let c = skip_spaces(&chars, b, le);
        let d = skip_word(&chars, c, le);
        let (x, y) = trim_quote_bounds(&chars, c, d);
        let ghost line = chars@.subrange(pos as int, le as int);
        proof {
            assert(rest.take(le - pos) =~= line);
            assert(line.skip(a - pos) =~= chars@.subrange(a as int, le as int));
            assert(chars@.subrange(a as int, le as int).take(b - a) =~= chars@.subrange(
                a as int,
                b as int,
            ));
            assert(chars@.subrange(a as int, le as int).skip(b - a) =~= chars@.subrange(
                b as int,
                le as int,
            ));
            assert(chars@.subrange(b as int, le as int).skip(c - b) =~= chars@.subrange(
                c as int,
                le as int,
            ));
            assert(chars@.subrange(c as int, le as int).take(d - c) =~= chars@.subrange(
                c as int,
                d as int,
            ));
            assert(first_token(line) == chars@.subrange(a as int, b as int));
            assert(second_token(line) == chars@.subrange(c as int, d as int));
        }
        if range_is(&chars, a, b, &k_x) {
            f.pos_x = Some(string_of(&chars, x, y));
        } else if range_is(&chars, a, b, &k_y) {
            f.pos_y = Some(string_of(&chars, x, y));
        } else if range_is(&chars, a, b, &k_rotate) {
            f.already_rotated = y - x == 1 && chars[x] == '1';
            proof {
                let v = chars@.subrange(x as int, y as int);
                if y - x == 1 && chars@[x as int] == '1' {
                    assert(v =~= seq!['1']);
                }
                if v == seq!['1'] {
                    assert(v.len() == 1 && v[0] == '1');
                }
                assert(f.already_rotated == (trim_quotes(second_token(line)) == seq!['1']));
            }
        } else if range_is(&chars, a, b, &k_scale) {
            f.scale = Some(string_of(&chars, x, y));
        }
        assert(f@ == apply_line(before, line));
        if le == n {
            return f;
        }
        assert(rest.skip(le - pos + 1) =~= chars@.subrange(le + 1, n as int));
        pos = le + 1;
    }
}

/// Path of the overview file of map `name` in the game directory `cwd`.
pub fn overview_path(cwd: &str, name: &str) -> (res: String)
    ensures
        res@ == cwd@ + "/csgo/resource/overviews/"@ + name@ + ".txt"@,
{
    let mut p = String::from_str(cwd);
    p.append("/csgo/resource/overviews/");
    p.append(name);
    p.append(".txt");
    p
}

/// Path of the radar image of map `name` in the game directory `cwd`.
pub fn radar_image_path(cwd: &str, name: &str) -> (res: String)
    ensures
        res@ == cwd@ + "/csgo/resource/overviews/"@ + name@ + "_radar.dds"@,
{
    let mut p = String::from_str(cwd);
    p.append("/csgo/resource/overviews/");
    p.append(name);
    p.append("_radar.dds");
    p
}

proof fn lemma_newline_index_props(s: Seq<char>)
    ensures
        newline_index(s) <= s.len(),
        forall|i: int| 0 <= i < newline_index(s) ==> #[trigger] s[i] != '\n',
        newline_index(s) < s.len() ==> s[newline_index(s) as int] == '\n',
    decreases s.len(),
{
    if s.len() > 0 && s[0] != '\n' {
        lemma_newline_index_props(s.drop_first());
        assert forall|i: int| 0 <= i < newline_index(s) implies #[trigger] s[i] != '\n' by {
            if i > 0 {
                assert(s[i] == s.drop_first()[i - 1]);
            }
        }
    }
}

/// Reading a text, a line feed and a further text is reading the first
/// text and then the second: lines are read one after the other.
pub proof fn lemma_read_concat(f: OverviewFieldsView, first: Seq<char>, rest: Seq<char>)
    ensures
        read_lines(f, first + seq!['\n'] + rest) == read_lines(read_lines(f, first), rest),
    decreases first.len(),
{
    let t = first + seq!['\n'] + rest;
    let k = newline_index(first);
    lemma_newline_index_props(first);
    if k < first.len() {
        assert forall|i: int| 0 <= i < k implies #[trigger] t[i] != '\n' by {
            assert(t[i] == first[i]);
        }
        assert(t[k as int] == first[k as int]);
        lemma_newline_index(t, k as int);
        let g = apply_line(f, first.take(k as int));
        assert(t.take(k as int) =~= first.take(k as int));
        let tail = first.skip(k + 1int);
        assert(t.skip(k + 1int) =~= tail + seq!['\n'] + rest);
        lemma_read_concat(g, tail, rest);
        assert(read_lines(f, first) == read_lines(g, tail));
        assert(read_lines(f, t) == read_lines(g, t.skip(k + 1int)));
    } else {
        assert forall|i: int| 0 <= i < first.len() implies #[trigger] t[i] != '\n' by {
            assert(t[i] == first[i]);
        }
        lemma_newline_index(t, first.len() as int);
        assert(t.take(first.len() as int) =~= first);
        assert(t.skip(first.len() + 1int) =~= rest);
        assert(first.take(first.len() as int) =~= first);
        assert(read_lines(f, first) == apply_line(f, first));
        assert(read_lines(f, t) == read_lines(apply_line(f, first), rest));
    }
}

/// Reading a single line (no line feed in it) is applying it.
proof fn lemma_read_one_line(f: OverviewFieldsView, line: Seq<char>)
    requires
        forall|i: int| 0 <= i < line.len() ==> #[trigger] line[i] != '\n',
    ensures
        read_lines(f, line) == apply_line(f, line),
{
    lemma_newline_index(line, line.len() as int);
    assert(line.take(line.len() as int) =~= line);
}

/// Reading one more line after a text changes the fields as that line
/// alone says: a later line overrides whatever earlier lines set for its
/// key, and leaves the other fields as they were.
pub proof fn lemma_read_appended_line(f: OverviewFieldsView, text: Seq<char>, line: Seq<char>)
    requires
        forall|i: int| 0 <= i < line.len() ==> #[trigger] line[i] != '\n',
    ensures
        read_lines(f, text + seq!['\n'] + line) == apply_line(read_lines(f, text), line),
{
    lemma_read_concat(f, text, line);
    lemma_read_one_line(read_lines(f, text), line);
}

/// Whether `line` is one of the lines the radar reads: its first token is
/// one of the four quoted keys.
pub open spec fn is_key_line(line: Seq<char>) -> bool {
    let key = first_token(line);
    key == key_pos_x() || key == key_pos_y() || key == key_rotate() || key == key_scale()
}

/// A line whose first token is none of the four keys changes nothing,
/// wherever it stands: first, between two parts of the text, or last.
pub proof fn lemma_other_line_ignored(
    f: OverviewFieldsView,
    before: Seq<char>,
    line: Seq<char>,
    after: Seq<char>,
)
    requires
        forall|i: int| 0 <= i < line.len() ==> #[trigger] line[i] != '\n',
        !is_key_line(line),
    ensures
        read_lines(f, line + seq!['\n'] + after) == read_lines(f, after),
        read_lines(f, before + seq!['\n'] + line + seq!['\n'] + after) == read_lines(
            f,
            before + seq!['\n'] + after,
        ),
        read_lines(f, before + seq!['\n'] + line) == read_lines(f, before),
{
    assert(apply_line(f, line) == f);
    lemma_read_concat(f, line, after);
    lemma_read_one_line(f, line);
    let g = read_lines(f, before);
    assert(apply_line(g, line) == g);
    lemma_read_concat(f, before, line + seq!['\n'] + after);
    assert(before + seq!['\n'] + line + seq!['\n'] + after =~= before + seq!['\n'] + (line
        + seq!['\n'] + after));
    lemma_read_concat(g, line, after);
    lemma_read_one_line(g, line);
    lemma_read_concat(f, before, after);
    lemma_read_appended_line(f, before, line);
}

/// The text made of `lines`, one after the other, separated by line feeds.
pub open spec fn join_lines(lines: Seq<Seq<char>>) -> Seq<char>
    decreases lines.len(),
{
    if lines.len() == 0 {
        Seq::empty()
    } else if lines.len() == 1 {
        lines[0]
    } else {
        join_lines(lines.drop_last()) + seq!['\n'] + lines.last()
    }
}

/// No line of `lines` holds a line feed.
pub open spec fn single_lines(lines: Seq<Seq<char>>) -> bool {
    forall|j: int, i: int|
        0 <= j < lines.len() && 0 <= i < lines[j].len() ==> #[trigger] lines[j][i] != '\n'
}

/// The fields after applying `lines` in order.
pub open spec fn apply_lines(f: OverviewFieldsView, lines: Seq<Seq<char>>) -> OverviewFieldsView
    decreases lines.len(),
{
    if lines.len() == 0 {
        f
    } else {
        apply_line(apply_lines(f, lines.drop_last()), lines.last())
    }
}

proof fn lemma_read_joined(f: OverviewFieldsView, lines: Seq<Seq<char>>)
    requires
        single_lines(lines),
    ensures
        read_lines(f, join_lines(lines)) == apply_lines(f, lines),
    decreases lines.len(),
{
    if lines.len() == 0 {
        assert(!is_key_line(Seq::<char>::empty()));
        lemma_read_one_line(f, Seq::empty());
        assert(apply_line(f, Seq::empty()) == f);
        assert(join_lines(lines) == Seq::<char>::empty());
    } else if lines.len() == 1 {
        let l = lines[0];
        assert forall|i: int| 0 <= i < l.len() implies #[trigger] l[i] != '\n' by {
            assert(lines[0][i] != '\n');
        }
        lemma_read_one_line(f, l);
        assert(lines.drop_last() =~= Seq::<Seq<char>>::empty());
        assert(apply_lines(f, lines.drop_last()) == f);
        assert(join_lines(lines) == l);
    } else {
        let init = lines.drop_last();
        let l = lines.last();
        assert forall|j: int, i: int| 0 <= j < init.len() && 0 <= i < init[j].len() implies #[trigger] init[j][i]
            != '\n' by {
            assert(init[j] == lines[j]);
        }
        assert forall|i: int| 0 <= i < l.len() implies #[trigger] l[i] != '\n' by {
            assert(lines[lines.len() - 1][i] != '\n');
        }
        lemma_read_joined(f, init);
        lemma_read_appended_line(f, join_lines(init), l);
    }
}

proof fn lemma_apply_key_lines(f: OverviewFieldsView, lines: Seq<Seq<char>>)
    ensures
        apply_lines(f, lines) == apply_lines(f, lines.filter(|l: Seq<char>| is_key_line(l))),
    decreases lines.len(),
{
    reveal_with_fuel(Seq::<_>::filter, 1);
    if lines.len() > 0 {
        let init = lines.drop_last();
        lemma_apply_key_lines(f, init);
        let kept = init.filter(|l: Seq<char>| is_key_line(l));
        if is_key_line(lines.last()) {
            assert(kept.push(lines.last()).drop_last() =~= kept);
        } else {
            assert(apply_line(apply_lines(f, init), lines.last()) == apply_lines(f, init));
        }
    }
}

proof fn lemma_filter_single_lines(lines: Seq<Seq<char>>)
    requires
        single_lines(lines),
    ensures
        single_lines(lines.filter(|l: Seq<char>| is_key_line(l))),
{
    let kept = lines.filter(|l: Seq<char>| is_key_line(l));
    assert forall|j: int, i: int| 0 <= j < kept.len() && 0 <= i < kept[j].len() implies #[trigger] kept[j][i]
        != '\n' by {
        lines.lemma_filter_contains_rev(|l: Seq<char>| is_key_line(l), kept[j]);
        assert(kept.contains(kept[j]));
        let m = choose|m: int| 0 <= m < lines.len() && lines[m] == kept[j];
        assert(lines[m][i] != '\n');
    }
}

/// Lines whose first token is none of the four keys may be added to or
/// removed from an overview anywhere, in any number, without changing
/// its fields: two overviews made of lines with the same key lines in the
/// same order give the same fields.
pub proof fn lemma_other_lines_ignored(lines1: Seq<Seq<char>>, lines2: Seq<Seq<char>>)
    requires
        single_lines(lines1),
        single_lines(lines2),
        lines1.filter(|l: Seq<char>| is_key_line(l)) == lines2.filter(|l: Seq<char>| is_key_line(l)),
    ensures
        overview_fields(join_lines(lines1)) == overview_fields(join_lines(lines2)),
{
    lemma_read_joined(initial_fields(), lines1);
    lemma_read_joined(initial_fields(), lines2);
    lemma_apply_key_lines(initial_fields(), lines1);
    lemma_apply_key_lines(initial_fields(), lines2);
}

proof fn lemma_space_run_concat(s: Seq<char>, t: Seq<char>)
    ensures
        space_run(s) <= s.len(),
        space_run(s + t) == if space_run(s) < s.len() {
            space_run(s)
        } else {
            s.len() + space_run(t)
        },
    decreases s.len(),
{
    if s.len() == 0 {
        assert(s + t =~= t);
    } else {
        assert((s + t).drop_first() =~= s.drop_first() + t);
        assert((s + t)[0] == s[0]);
        lemma_space_run_concat(s.drop_first(), t);
    }
}

proof fn lemma_word_run_concat(s: Seq<char>, t: Seq<char>)
    ensures
        word_run(s) <= s.len(),
        word_run(s + t) == if word_run(s) < s.len() {
            word_run(s)
        } else {
            s.len() + word_run(t)
        },
    decreases s.len(),
{
    if s.len() == 0 {
        assert(s + t =~= t);
    } else {
        assert((s + t).drop_first() =~= s.drop_first() + t);
        assert((s + t)[0] == s[0]);
        lemma_word_run_concat(s.drop_first(), t);
    }
}

/// A whitespace character at the end of `s` changes neither its first
/// token nor what follows it, but for that character.
proof fn lemma_first_token_trailing_space(s: Seq<char>, c: char)
    requires
        is_space(c),
    ensures
        first_token(s + seq![c]) == first_token(s),
        after_first_token(s + seq![c]) == after_first_token(s) + seq![c] || (after_first_token(
            s + seq![c],
        ) == after_first_token(s) && after_first_token(s).len() == 0),
{
    let cs = seq![c];
    let a = space_run(s);
    lemma_space_run_concat(s, cs);
    assert(space_run(cs.drop_first()) == 0);
    assert(space_run(cs) == 1);
    assert(word_run(cs) == 0);
    if a < s.len() {
        let ts = s.skip(a as int);
        assert((s + cs).skip(a as int) =~= ts + cs);
        let w = word_run(ts);
        lemma_word_run_concat(ts, cs);
        assert((ts + cs).take(w as int) =~= ts.take(w as int));
        assert((ts + cs).skip(w as int) =~= ts.skip(w as int) + cs);
    } else {
        assert((s + cs).skip(s.len() + 1int) =~= Seq::<char>::empty());
        assert(s.skip(s.len() as int) =~= Seq::<char>::empty());
        assert(word_run(Seq::<char>::empty()) == 0);
        assert(Seq::<char>::empty().take(0) =~= Seq::<char>::empty());
        assert(Seq::<char>::empty().skip(0) =~= Seq::<char>::empty());
    }
}

/// A whitespace character at the end of a line changes nothing it sets.
proof fn lemma_apply_line_trailing_space(f: OverviewFieldsView, line: Seq<char>, c: char)
    requires
        is_space(c),
    ensures
        apply_line(f, line + seq![c]) == apply_line(f, line),
{
    lemma_first_token_trailing_space(line, c);
    let after = after_first_token(line);
    if after_first_token(line + seq![c]) == after + seq![c] {
        lemma_first_token_trailing_space(after, c);
    }
}

/// A whitespace character at the end of a text changes nothing it sets.
proof fn lemma_read_trailing_space(f: OverviewFieldsView, text: Seq<char>, c: char)
    requires
        is_space(c),
        c != '\n',
    ensures
        read_lines(f, text + seq![c]) == read_lines(f, text),
    decreases text.len(),
{
    let t = text + seq![c];
    let k = newline_index(text);
    lemma_newline_index_props(text);
    if k < text.len() {
        assert forall|i: int| 0 <= i < k implies #[trigger] t[i] != '\n' by {
            assert(t[i] == text[i]);
        }
        assert(t[k as int] == text[k as int]);
        lemma_newline_index(t, k as int);
        let g = apply_line(f, text.take(k as int));
        assert(t.take(k as int) =~= text.take(k as int));
        let tail = text.skip(k + 1int);
        assert(t.skip(k + 1int) =~= tail + seq![c]);
        lemma_read_trailing_space(g, tail, c);
    } else {
        assert forall|i: int| 0 <= i < t.len() implies #[trigger] t[i] != '\n' by {
            if i < text.len() {
                assert(t[i] == text[i]);
            }
        }
        lemma_newline_index(t, t.len() as int);
        assert(t.take(t.len() as int) =~= t);
        assert(text.take(text.len() as int) =~= text);
        lemma_apply_line_trailing_space(f, text, c);
    }
}

/// Line ends written as carriage return and line feed read as plain line
/// feeds: a CR before a line feed changes no field.
pub proof fn lemma_crlf_read_as_lf(before: Seq<char>, after: Seq<char>)
    ensures
        overview_fields(before + seq!['\r', '\n'] + after) == overview_fields(
            before + seq!['\n'] + after,
        ),
{
    assert(before + seq!['\r', '\n'] + after =~= (before + seq!['\r']) + seq!['\n'] + after);
    lemma_read_concat(initial_fields(), before + seq!['\r'], after);
    lemma_read_concat(initial_fields(), before, after);
    lemma_read_trailing_space(initial_fields(), before, '\r');
}

/// A `"pos_x"` line whose key is followed by spaces or tabs and then a
/// value sets `pos_x` to that value with its quotes removed; no other
/// field changes.
pub proof fn lemma_pos_x_line(f: OverviewFieldsView, sep: Seq<char>, value: Seq<char>)
    requires
        sep.len() > 0,
        forall|i: int| 0 <= i < sep.len() ==> #[trigger] sep[i] == ' ' || sep[i] == '\t',
        value.len() > 0,
        forall|i: int| 0 <= i < value.len() ==> !is_space(#[trigger] value[i]),
    ensures
        apply_line(f, key_pos_x() + sep + value) == (OverviewFieldsView {
            pos_x: Some(trim_quotes(value)),
            ..f
        }),
{
    let k = key_pos_x();
    let line = k + sep + value;
    assert(line =~= k + (sep + value));
    assert forall|i: int| 0 <= i < k.len() implies !is_space(#[trigger] k[i]) by {
        assert(k[0] == '"' && k[1] == 'p' && k[2] == 'o' && k[3] == 's' && k[4] == '_' && k[5]
            == 'x' && k[6] == '"');
    }
    lemma_word_run(k, k.len() as int);
    assert((sep + value)[0] == sep[0]);
    lemma_word_run(sep + value, 0);
    lemma_word_run_concat(k, sep + value);
    assert(line[0] == k[0]);
    lemma_space_run(line, 0);
    assert(line.skip(0) =~= line);
    assert(line.take(k.len() as int) =~= k);
    assert(line.skip(k.len() as int) =~= sep + value);
    lemma_space_run(sep, sep.len() as int);
    lemma_space_run(value, 0);
    lemma_space_run_concat(sep, value);
    assert((sep + value).skip(sep.len() as int) =~= value);
    lemma_word_run(value, value.len() as int);
    assert(value.take(value.len() as int) =~= value);
}

} // verus!
