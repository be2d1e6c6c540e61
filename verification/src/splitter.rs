//! Streaming text splitter for speech synthesis. The first clause of a reply
//! leaves as soon as a token closes on punctuation; later text is stripped of
//! markdown, cut at sentence boundaries, and a sentence too long for one
//! utterance is cut again after clause marks.
use vstd::prelude::*;

use std::time::{Duration, Instant};

use crate::text::{chars_of, string_of};

verus! {

/// Byte length up to which a sentence is spoken as one chunk.
pub const MAX_CHUNK_CHARS: usize = 250;

/// Words (CJK characters, or else whitespace-separated words) up to which a
/// sentence is spoken as one chunk.
pub const MAX_CHUNK_WORDS: usize = 30;

/// How long collected text may wait for a sentence boundary.
pub const TIMEOUT_DURATION_MS: u64 = 700;

// ---------------------------------------------------------------------------
// Characters.

/// Whether `c` has the Unicode `White_Space` property: the control
/// characters tab to carriage return, the space, next line, no-break space,
/// ogham space mark, the spaces en quad to hair space, the line and
/// paragraph separators, narrow no-break space, medium mathematical space
/// and ideographic space.
pub open spec fn white_space(c: char) -> bool {
    let u = c as u32;
    ||| 0x09 <= u <= 0x0D
    ||| u == 0x20
    ||| u == 0x85
    ||| u == 0xA0
    ||| u == 0x1680
    ||| 0x2000 <= u <= 0x200A
    ||| u == 0x2028
    ||| u == 0x2029
    ||| u == 0x202F
    ||| u == 0x205F
    ||| u == 0x3000
}

/// Whether `c` has the Unicode `White_Space` property, as
/// `char::is_whitespace` answers.
fn is_white_space(c: char) -> (r: bool)
    ensures
        r == white_space(c),
{
    let u = c as u32;
    (0x09 <= u && u <= 0x0D) || u == 0x20 || u == 0x85 || u == 0xA0 || u == 0x1680 || (0x2000 <= u && u
        <= 0x200A) || u == 0x2028 || u == 0x2029 || u == 0x202F || u == 0x205F || u == 0x3000
}

/// Punctuation (and the space) on which a token closes the first chunk.
pub open spec fn is_boundary_char(c: char) -> bool {
    c == '，' || c == '。' || c == '！' || c == '？' || c == '；' || c == '：' || c == '、' || c
        == ',' || c == '.' || c == '!' || c == '?' || c == ';' || c == ':' || c == ' '
}

/// Clause marks after which an over-long sentence may be cut.
pub open spec fn is_clause_mark(c: char) -> bool {
    c == '，' || c == '；' || c == '：'
}

/// A CJK unified ideograph, counted as one word.
pub open spec fn is_cjk(c: char) -> bool {
    0x4e00 <= (c as u32) <= 0x9fff
}

/// Bytes of `c` in UTF-8.
pub open spec fn utf8_width(c: char) -> nat {
    if (c as u32) <= 0x7f {
        1
    } else if (c as u32) <= 0x7ff {
        2
    } else if (c as u32) <= 0xffff {
        3
    } else {
        4
    }
}

/// Bytes of `s` in UTF-8.
pub open spec fn utf8_len(s: Seq<char>) -> nat
    decreases s.len(),
{
    if s.len() == 0 {
        0
    } else {
        utf8_len(s.drop_last()) + utf8_width(s.last())
    }
}

/// Nothing but white space (what `str::trim` leaves empty).
pub open spec fn is_blank(s: Seq<char>) -> bool {
    forall|i: int| 0 <= i < s.len() ==> white_space(#[trigger] s[i])
}

/// A token that closes on boundary punctuation.
pub open spec fn ends_on_boundary(s: Seq<char>) -> bool {
    s.len() > 0 && is_boundary_char(s.last())
}

/// How many CJK characters `s` holds.
pub open spec fn cjk_count(s: Seq<char>) -> nat
    decreases s.len(),
{
    if s.len() == 0 {
        0
    } else {
        cjk_count(s.drop_last()) + if is_cjk(s.last()) {
            1nat
        } else {
            0nat
        }
    }
}

/// How many maximal runs of non-white-space characters `s` holds.
pub open spec fn word_runs(s: Seq<char>) -> nat
    decreases s.len(),
{
    if s.len() == 0 {
        0
    } else {
        let starts = !white_space(s.last()) && (s.len() == 1 || white_space(s[s.len() - 2]));
        word_runs(s.drop_last()) + if starts {
            1nat
        } else {
            0nat
        }
    }
}

/// Words of `s`: its CJK characters when it has any, else its runs of
/// non-white-space.
pub open spec fn word_count(s: Seq<char>) -> nat {
    if cjk_count(s) > 0 {
        cjk_count(s)
    } else {
        word_runs(s)
    }
}

// ---------------------------------------------------------------------------
// Pieces of text.

/// The characters of each string.
pub open spec fn views(v: Seq<String>) -> Seq<Seq<char>> {
    v.map_values(|s: String| s@)
}

/// The pieces written one after another.
pub open spec fn joined(ss: Seq<Seq<char>>) -> Seq<char>
    decreases ss.len(),
{
    if ss.len() == 0 {
        Seq::empty()
    } else {
        joined(ss.drop_last()) + ss.last()
    }
}

/// The pieces of `s` cut after a clause mark once the piece reaches half
/// the chunk size in bytes, `buf` being the piece begun so far.
pub open spec fn clause_pieces(s: Seq<char>, buf: Seq<char>) -> Seq<Seq<char>>
    decreases s.len(),
{
    if s.len() == 0 {
        if buf.len() == 0 {
            Seq::empty()
        } else {
            seq![buf]
        }
    } else {
        let grown = buf.push(s[0]);
        if is_clause_mark(s[0]) && utf8_len(grown) >= MAX_CHUNK_CHARS / 2 {
            seq![grown] + clause_pieces(s.drop_first(), Seq::empty())
        } else {
            clause_pieces(s.drop_first(), grown)
        }
    }
}

/// A sentence as spoken: whole when short enough, else cut at clauses.
pub open spec fn split_piece(s: Seq<char>) -> Seq<Seq<char>> {
    if utf8_len(s) <= MAX_CHUNK_CHARS && word_count(s) <= MAX_CHUNK_WORDS {
        seq![s]
    } else {
        clause_pieces(s, Seq::empty())
    }
}

/// Every sentence as spoken, in order.
pub open spec fn split_pieces(ss: Seq<Seq<char>>) -> Seq<Seq<char>>
    decreases ss.len(),
{
    if ss.len() == 0 {
        Seq::empty()
    } else {
        split_pieces(ss.drop_last()) + split_piece(ss.last())
    }
}

/// The sentences that carry more than white space.
pub open spec fn non_blank(ss: Seq<Seq<char>>) -> Seq<Seq<char>>
    decreases ss.len(),
{
    if ss.len() == 0 {
        Seq::empty()
    } else if is_blank(ss.last()) {
        non_blank(ss.drop_last())
    } else {
        non_blank(ss.drop_last()).push(ss.last())
    }
}

// ---------------------------------------------------------------------------
// Outside calls.

/// The markdown patterns stripped from streamed text, in the order applied.
pub open spec fn markdown_patterns() -> Seq<Seq<char>> {
    seq![
        r"\n"@,
        r"```.*?```"@,
        r"^#+\s*"@,
        r"(\*\*|__)(.*?)\1"@,
        r"(\*|_)(?=\S)(.*?)(?<=\S)\1"@,
        r"!\[.*?\]\(.*?\)"@,
        r"\[(.*?)\]\(.*?\)"@,
        r"^\s*>+\s*"@,
        r"\$\$.*?\$\$"@,
    ]
}

/// What `fancy_regex` makes of `text` with every match of `pattern` replaced
/// by `replacement`, or `None` where its matcher gives up.
pub uninterp spec fn regex_replaced(
    pattern: Seq<char>,
    text: Seq<char>,
    replacement: Seq<char>,
) -> Option<Seq<char>>;

pub open spec fn string_option_view(r: Option<String>) -> Option<Seq<char>> {
    match r {
        Some(s) => Some(s@),
        None => None,
    }
}

/// `fancy_regex::Regex::new(pattern)` then `try_replacen(text, 0, replacement)`:
/// every non-overlapping match replaced, `None` where the engine reports an
/// error (its backtracking limit). The result is named. Stated besides: with
/// an empty replacement no character comes in that the text did not hold,
/// and the pattern `\n` leaves no line feed. The patterns admitted are the
/// fixed markdown patterns, all of which compile, so `Regex::new` succeeds.
#[verifier::external_body]
fn replace_matches(pattern: &str, text: &str, replacement: &str) -> (r: Option<String>)
    requires
        markdown_patterns().contains(pattern@),
    ensures
        string_option_view(r) == regex_replaced(pattern@, text@, replacement@),
        r is Some && replacement@.len() == 0 ==> forall|c: char| #[trigger]
            r->0@.contains(c) ==> text@.contains(c),
        r is Some && replacement@.len() == 0 && pattern@ == r"\n"@ ==> !r->0@.contains('\n'),
{
    match fancy_regex::Regex::new(pattern).unwrap().try_replacen(text, 0, replacement) {
        Ok(replaced) => Some(replaced.into_owned()),
        Err(_) => None,
    }
}

/// What `sentencex::segment` cuts `text` into for `language`.
pub uninterp spec fn segmented(language: Seq<char>, text: Seq<char>) -> Seq<Seq<char>>;

/// `sentencex::segment(language, text)`: the sentences, each copied out of
/// the text. The result is named. Stated besides, as the crate's source
/// shows it: without a line feed (so without a paragraph break, and then the
/// text is processed as one paragraph whatever its size) the sentences are
/// non-empty and written one after another give back the text.
#[verifier::external_body]
fn segment_sentences(language: &str, text: &str) -> (r: Vec<String>)
    ensures
        views(r@) == segmented(language@, text@),
        !text@.contains('\n') ==> joined(views(r@)) == text@,
        !text@.contains('\n') ==> forall|i: int| 0 <= i < r@.len() ==> (#[trigger] r@[i])@.len()
            > 0,
{
    let mut out: Vec<String> = Vec::new();
    for sentence in sentencex::segment(language, text) {
        out.push(sentence.to_string());
    }
    out
}

/// The monotonic clock's instants, opaque here.
#[verifier::external_type_specification]
#[verifier::external_body]
pub struct ExInstant(Instant);

/// `Instant::now`: the current instant of the monotonic clock.
#[verifier::external_body]
fn instant_now() -> Instant {
    Instant::now()
}

/// `Instant::elapsed`: the time passed since `since`.
#[verifier::external_body]
fn elapsed_since(since: &Instant) -> Duration {
    since.elapsed()
}

/// `Duration::from_millis`.
#[verifier::external_body]
fn duration_from_millis(ms: u64) -> Duration {
    Duration::from_millis(ms)
}

/// `Duration`'s `>=`.
#[verifier::external_body]
fn duration_at_least(a: &Duration, b: &Duration) -> bool {
    a >= b
}


// ---------------------------------------------------------------------------
// Markdown stripping.

/// One pattern's pass: its matches removed, or the text kept where the
/// engine gives up.
pub open spec fn strip_step(pattern: Seq<char>, text: Seq<char>) -> Seq<char> {
    match regex_replaced(pattern, text, Seq::empty()) {
        Some(r) => r,
        None => text,
    }
}

/// The first `k` markdown patterns' passes, in order.
pub open spec fn stripped_by(text: Seq<char>, k: nat) -> Seq<char>
    decreases k,
{
    if k == 0 {
        text
    } else {
        strip_step(markdown_patterns()[k - 1], stripped_by(text, (k - 1) as nat))
    }
}

/// Streamed text with its markdown stripped.
pub open spec fn stripped(text: Seq<char>) -> Seq<char> {
    stripped_by(text, 9)
}

fn strip_with(pattern: &str, content: String) -> (r: String)
    requires
        markdown_patterns().contains(pattern@),
    ensures
        r@ == strip_step(pattern@, content@),
{
    proof {
        reveal_strlit("");
        assert(""@ =~= Seq::<char>::empty());
    }
    match replace_matches(pattern, content.as_str(), "") {
        Some(replaced) => replaced,
        None => content,
    }
}

/// Whether every markdown pass over `text` runs to the end, none of them
/// stopped by the engine's backtracking limit.
pub open spec fn strips_cleanly(text: Seq<char>) -> bool {
    forall|k: int|
        0 <= k < 9 ==> (#[trigger] regex_replaced(markdown_patterns()[k], stripped_by(text, k as nat), Seq::empty()))
            is Some
}

fn try_strip_with(pattern: &str, content: String) -> (r: Option<String>)
    requires
        markdown_patterns().contains(pattern@),
    ensures
        (r is Some) == (regex_replaced(pattern@, content@, Seq::empty()) is Some),
        r is Some ==> r->0@ == strip_step(pattern@, content@),
{
    proof {
        reveal_strlit("");
        assert(""@ =~= Seq::<char>::empty());
    }
    replace_matches(pattern, content.as_str(), "")
}

/// Whether stripping markdown from `text` runs to the end.
fn strip_runs(text: &str) -> (r: bool)
    ensures
        r == strips_cleanly(text@),
{
    let ghost ps = markdown_patterns();
    let patterns = [
        r"\n",
        r"```.*?```",
        r"^#+\s*",
        r"(\*\*|__)(.*?)\1",
        r"(\*|_)(?=\S)(.*?)(?<=\S)\1",
        r"!\[.*?\]\(.*?\)",
        r"\[(.*?)\]\(.*?\)",
        r"^\s*>+\s*",
        r"\$\$.*?\$\$",
    ];
    assert(ps[0] == patterns[0]@);
    assert(ps[1] == patterns[1]@);
    assert(ps[2] == patterns[2]@);
    assert(ps[3] == patterns[3]@);
    assert(ps[4] == patterns[4]@);
    assert(ps[5] == patterns[5]@);
    assert(ps[6] == patterns[6]@);
    assert(ps[7] == patterns[7]@);
    assert(ps[8] == patterns[8]@);
    let mut content = text.to_owned();
    let mut k: usize = 0;
    while k < 9
        invariant
            k <= 9,
            ps == markdown_patterns(),
            forall|j: int| 0 <= j < 9 ==> ps[j] == (#[trigger] patterns@[j])@,
            content@ == stripped_by(text@, k as nat),
            forall|j: int|
                0 <= j < k ==> (#[trigger] regex_replaced(ps[j], stripped_by(text@, j as nat), Seq::empty())) is Some,
        decreases 9 - k,
    {
        assert(ps.contains(patterns[k as int]@)) by {
            assert(ps[k as int] == patterns@[k as int]@);
        }
        match try_strip_with(patterns[k], content) {
            Some(next) => {
                content = next;
            },
            None => {
                assert(patterns@[k as int]@ == ps[k as int]);
                proof {
                    let ki: int = k as int;
                    assert(stripped_by(text@, ki as nat) == stripped_by(text@, k as nat));
                    assert(regex_replaced(markdown_patterns()[ki], stripped_by(text@, ki as nat), Seq::empty()) is None);
                    assert(!strips_cleanly(text@));
                }
                return false;
            },
        }
        k += 1;
    }
    true
}

/// Strip markdown from a streamed token.
fn filter(text: &str) -> (r: String)
    ensures
        r@ == stripped(text@),
{
    let ghost ps = markdown_patterns();
    let content = text.to_owned();
    assert(ps[0] == r"\n"@);
    let content = strip_with(r"\n", content);
    assert(ps[1] == r"```.*?```"@);
    let content = strip_with(r"```.*?```", content);
    assert(ps[2] == r"^#+\s*"@);
    let content = strip_with(r"^#+\s*", content);
    assert(ps[3] == r"(\*\*|__)(.*?)\1"@);
    let content = strip_with(r"(\*\*|__)(.*?)\1", content);
    assert(ps[4] == r"(\*|_)(?=\S)(.*?)(?<=\S)\1"@);
    let content = strip_with(r"(\*|_)(?=\S)(.*?)(?<=\S)\1", content);
    assert(ps[5] == r"!\[.*?\]\(.*?\)"@);
    let content = strip_with(r"!\[.*?\]\(.*?\)", content);
    assert(ps[6] == r"\[(.*?)\]\(.*?\)"@);
    let content = strip_with(r"\[(.*?)\]\(.*?\)", content);
    assert(ps[7] == r"^\s*>+\s*"@);
    let content = strip_with(r"^\s*>+\s*", content);
    assert(ps[8] == r"\$\$.*?\$\$"@);
    let content = strip_with(r"\$\$.*?\$\$", content);
    proof {
        reveal_with_fuel(stripped_by, 10);
    }
    content
}

// ---------------------------------------------------------------------------
// Character scans.

fn utf8_width_of(c: char) -> (w: usize)
    ensures
        w == utf8_width(c),
{
    let v = c as u32;
    if v <= 0x7f {
        1
    } else if v <= 0x7ff {
        2
    } else if v <= 0xffff {
        3
    } else {
        4
    }
}

/// Whether the text is longer than `limit` bytes in UTF-8.
fn utf8_len_exceeds(chars: &[char], limit: usize) -> (r: bool)
    requires
        limit <= 1024,
    ensures
        r == (utf8_len(chars@) > limit),
{
    let mut total: usize = 0;
    let mut i: usize = 0;
    while i < chars.len()
        invariant
            i <= chars@.len(),
            total == utf8_len(chars@.take(i as int)),
            total <= limit,
            limit <= 1024,
        decreases chars@.len() - i,
    {
        assert(chars@.take(i + 1).drop_last() =~= chars@.take(i as int));
        total = total + utf8_width_of(chars[i]);
        i += 1;
        if total > limit {
            proof {
                lemma_utf8_len_prefix_le(chars@, i as int);
            }
            return true;
        }
    }
    assert(chars@.take(i as int) =~= chars@);
    false
}

proof fn lemma_utf8_len_prefix_le(s: Seq<char>, k: int)
    requires
        0 <= k <= s.len(),
    ensures
        utf8_len(s.take(k)) <= utf8_len(s),
    decreases s.len() - k,
{
    if k < s.len() {
        lemma_utf8_len_prefix_le(s, k + 1);
        assert(s.take(k + 1).drop_last() =~= s.take(k));
    } else {
        assert(s.take(k) =~= s);
    }
}

/// Whether the text is nothing but white space.
fn is_blank_chars(chars: &[char]) -> (r: bool)
    ensures
        r == is_blank(chars@),
{
    let mut i: usize = 0;
    while i < chars.len()
        invariant
            i <= chars@.len(),
            forall|j: int| 0 <= j < i ==> white_space(#[trigger] chars@[j]),
        decreases chars@.len() - i,
    {
        if !is_white_space(chars[i]) {
            return false;
        }
        i += 1;
    }
    true
}

/// Whether a token closes on boundary punctuation (or a space).
fn is_word_boundary(token: &str) -> (r: bool)
    ensures
        r == ends_on_boundary(token@),
{
    let chars = chars_of(token);
    if chars.len() == 0 {
        return false;
    }
    let c = chars[chars.len() - 1];
    c == '，' || c == '。' || c == '！' || c == '？' || c == '；' || c == '：' || c == '、' || c == ','
        || c == '.' || c == '!' || c == '?' || c == ';' || c == ':' || c == ' '
}

/// Words of a text: its CJK characters when it has any, else its runs of
/// non-white-space.
fn count_words(chars: &[char]) -> (r: usize)
    ensures
        r == word_count(chars@),
{
    let mut cjk: usize = 0;
    let mut runs: usize = 0;
    let mut i: usize = 0;
    while i < chars.len()
        invariant
            i <= chars@.len(),
            cjk == cjk_count(chars@.take(i as int)),
            runs == word_runs(chars@.take(i as int)),
            cjk <= i,
            runs <= i,
        decreases chars@.len() - i,
    {
        let ghost prefix = chars@.take(i + 1);
        assert(prefix.drop_last() =~= chars@.take(i as int));
        let c = chars[i];
        let v = c as u32;
        if 0x4e00 <= v && v <= 0x9fff {
            cjk = cjk + 1;
        }
        let space = is_white_space(c);
        if !space && (i == 0 || is_white_space(chars[i - 1])) {
            runs = runs + 1;
        }
        proof {
            if i > 0 {
                assert(prefix[prefix.len() - 2] == chars@[i - 1]);
            }
        }
        i += 1;
    }
    assert(chars@.take(i as int) =~= chars@);
    if cjk > 0 {
        cjk
    } else {
        runs
    }
}


// ---------------------------------------------------------------------------
// Cutting long sentences.

proof fn lemma_views_push(v: Seq<String>, s: String)
    ensures
        views(v.push(s)) == views(v).push(s@),
{
    assert(views(v.push(s)) =~= views(v).push(s@));
}

proof fn lemma_views_concat(a: Seq<String>, b: Seq<String>)
    ensures
        views(a + b) == views(a) + views(b),
{
    assert(views(a + b) =~= views(a) + views(b));
}

proof fn lemma_split_single(s: Seq<char>)
    ensures
        split_pieces(seq![s]) == split_piece(s),
{
    let one = seq![s];
    assert(one.drop_last() =~= Seq::<Seq<char>>::empty());
    assert(one.last() == s);
    assert(split_pieces(one.drop_last()) =~= Seq::<Seq<char>>::empty());
    assert(Seq::<Seq<char>>::empty() + split_piece(s) =~= split_piece(s));
}

/// A sentence cut after clause marks once a piece reaches half the chunk
/// size.
fn cut_at_clauses(chars: &[char]) -> (r: Vec<String>)
    ensures
        views(r@) == clause_pieces(chars@, Seq::empty()),
{
    let mut out: Vec<String> = Vec::new();
    let mut buffer: Vec<char> = Vec::new();
    let mut buf_bytes: usize = 0;
    let mut i: usize = 0;
    let half: usize = MAX_CHUNK_CHARS / 2;
    assert(chars@.subrange(0, chars@.len() as int) =~= chars@);
    assert(views(out@) =~= Seq::<Seq<char>>::empty());
    assert(buffer@ =~= Seq::<char>::empty());
    while i < chars.len()
        invariant
            i <= chars@.len(),
            half == MAX_CHUNK_CHARS / 2,
            buf_bytes == if utf8_len(buffer@) < half { utf8_len(buffer@) } else { half as nat },
            views(out@) + clause_pieces(chars@.subrange(i as int, chars@.len() as int), buffer@)
                == clause_pieces(chars@, Seq::empty()),
        decreases chars@.len() - i,
    {
        let ghost rest = chars@.subrange(i as int, chars@.len() as int);
        let ghost old_out = out@;
        let ghost old_buffer = buffer@;
        let c = chars[i];
        assert(rest[0] == c);
        assert(rest.drop_first() =~= chars@.subrange(i + 1, chars@.len() as int));
        buffer.push(c);
        assert(buffer@.drop_last() =~= old_buffer);
        let w = utf8_width_of(c);
        buf_bytes = if buf_bytes + w < half { buf_bytes + w } else { half };
        if (c == '，' || c == '；' || c == '：') && buf_bytes >= half {
            let piece = string_of(buffer.as_slice());
            proof {
                lemma_views_push(out@, piece);
            }
            out.push(piece);
            assert(views(out@) + clause_pieces(rest.drop_first(), Seq::empty()) =~= views(old_out)
                + (seq![old_buffer.push(c)] + clause_pieces(rest.drop_first(), Seq::empty())));
            buffer = Vec::new();
            buf_bytes = 0;
        }
        i += 1;
    }
    if buffer.len() > 0 {
        let piece = string_of(buffer.as_slice());
        proof {
            lemma_views_push(out@, piece);
        }
        out.push(piece);
    }
    proof {
        assert(chars@.subrange(i as int, chars@.len() as int) =~= Seq::<char>::empty());
    }
    out
}

/// One sentence as spoken: whole when short enough, else cut at clauses.
fn split_long_sentence(chunk: String) -> (r: Vec<String>)
    ensures
        views(r@) == split_piece(chunk@),
{
    let chars = chars_of(chunk.as_str());
    if !utf8_len_exceeds(chars.as_slice(), MAX_CHUNK_CHARS) && count_words(chars.as_slice())
        <= MAX_CHUNK_WORDS {
        let mut out: Vec<String> = Vec::new();
        proof {
            lemma_views_push(out@, chunk);
            assert(views(out@) =~= Seq::<Seq<char>>::empty());
        }
        out.push(chunk);
        out
    } else {
        cut_at_clauses(chars.as_slice())
    }
}

/// Each sentence as spoken, in order.
fn split_long_sentences(chunks: Vec<String>) -> (r: Vec<String>)
    ensures
        views(r@) == split_pieces(views(chunks@)),
{
    let mut result: Vec<String> = Vec::new();
    let mut i: usize = 0;
    while i < chunks.len()
        invariant
            i <= chunks@.len(),
            views(result@) == split_pieces(views(chunks@.take(i as int))),
        decreases chunks@.len() - i,
    {
        let chunk = chunks[i].clone();
        let mut pieces = split_long_sentence(chunk);
        proof {
            lemma_views_concat(result@, pieces@);
            assert(views(chunks@.take(i + 1)).drop_last() =~= views(chunks@.take(i as int)));
            assert(views(chunks@.take(i + 1)).last() == chunks@[i as int]@);
        }
        result.append(&mut pieces);
        i += 1;
    }
    assert(chunks@.take(i as int) =~= chunks@);
    result
}


// ---------------------------------------------------------------------------
// The splitter.

/// The collected text left after the first `k` characters.
pub open spec fn rest_after(text: Seq<char>, k: nat) -> Seq<char> {
    if k <= text.len() {
        text.subrange(k as int, text.len() as int)
    } else {
        Seq::empty()
    }
}

/// What taking one streamed token does, from the splitter before to the
/// splitter after and the chunks handed out; see [`Splitter::accept_token`].
pub open spec fn token_accepted(before: Splitter, after: Splitter, token: Seq<char>, out: Seq<String>) -> bool {
    &&& !before.started() ==> {
        let grown = before.pending() + token;
        &&& after.collected() == before.collected()
        &&& if ends_on_boundary(token) && !is_blank(grown) {
            &&& views(out) == seq![grown]
            &&& after.pending() == Seq::<char>::empty()
            &&& after.started()
        } else {
            &&& out.len() == 0
            &&& after.pending() == grown
            &&& !after.started()
        }
    }
    &&& before.started() ==> {
        let text = before.collected() + stripped(token);
        let pieces = segmented("zh"@, text);
        let spoken = pieces.take(pieces.len() - 1);
        &&& after.started()
        &&& after.pending() == before.pending()
        &&& if pieces.len() == 0 {
            ||| (out.len() == 0 && after.collected() == text)
            ||| (!is_blank(text) && views(out) == seq![text] && after.collected() == Seq::<char>::empty())
        } else {
            &&& views(out) == split_pieces(non_blank(spoken))
            &&& after.collected() == rest_after(text, joined(spoken).len())
        }
    }
    &&& before.started() ==> {
        let text = before.collected() + stripped(token);
        let pieces = segmented("zh"@, text);
        let spoken = pieces.take(pieces.len() - 1);
        !text.contains('\n') && pieces.len() > 0 ==> {
            &&& joined(spoken) + after.collected() == text
            &&& after.collected() == pieces.last()
        }
    }
}

/// Splits a streamed reply into chunks for speech synthesis.
pub struct Splitter {
    text_collector: Vec<char>,
    token_buffer: Vec<char>,
    last_flush_time: Instant,
    timeout_duration: Duration,
    first_chunk_emitted: bool,
}

impl Default for Splitter {
    fn default() -> (s: Self)
        ensures
            !s.started(),
            s.pending() == Seq::<char>::empty(),
            s.collected() == Seq::<char>::empty(),
    {
        Self::new()
    }
}

impl Splitter {
    /// Whether the first chunk has gone out.
    pub closed spec fn started(&self) -> bool {
        self.first_chunk_emitted
    }

    /// Tokens gathered toward the first chunk.
    pub closed spec fn pending(&self) -> Seq<char> {
        self.token_buffer@
    }

    /// Stripped text gathered toward the next sentence.
    pub closed spec fn collected(&self) -> Seq<char> {
        self.text_collector@
    }

    pub fn new() -> (s: Self)
        ensures
            !s.started(),
            s.pending() == Seq::<char>::empty(),
            s.collected() == Seq::<char>::empty(),
    {
        Splitter {
            text_collector: Vec::new(),
            token_buffer: Vec::new(),
            last_flush_time: instant_now(),
            timeout_duration: duration_from_millis(TIMEOUT_DURATION_MS),
            first_chunk_emitted: false,
        }
    }

    /// Take one streamed token; returns the chunks now ready to speak.
    ///
    /// Until the first chunk has gone out, tokens gather raw and leave as one
    /// chunk once a token closes on punctuation (or a space) and the gathered
    /// text is not blank. After that, each token is stripped of markdown and
    /// collected; every sentence of the collected text but the last is
    /// spoken (blank ones dropped, long ones cut at clauses) and the last
    /// stays collected. Where the segmenter finds no sentence at all, the
    /// collected text leaves whole once the timeout has passed since the
    /// last flush, if it is not blank: the clock decides, so both outcomes
    /// are stated.
    pub fn accept_token(&mut self, token: &str) -> (out: Vec<String>)
        requires
            old(self).started() ==> strips_cleanly(token@),
        ensures
            !old(self).started() ==> {
                let grown = old(self).pending() + token@;
                &&& final(self).collected() == old(self).collected()
                &&& if ends_on_boundary(token@) && !is_blank(grown) {
                    &&& views(out@) == seq![grown]
                    &&& final(self).pending() == Seq::<char>::empty()
                    &&& final(self).started()
                } else {
                    &&& out@.len() == 0
                    &&& final(self).pending() == grown
                    &&& !final(self).started()
                }
            },
            old(self).started() ==> {
                let text = old(self).collected() + stripped(token@);
                let pieces = segmented("zh"@, text);
                let spoken = pieces.take(pieces.len() - 1);
                &&& final(self).started()
                &&& final(self).pending() == old(self).pending()
                &&& if pieces.len() == 0 {
                    ||| (out@.len() == 0 && final(self).collected() == text)
                    ||| (!is_blank(text) && views(out@) == seq![text]
                        && final(self).collected() == Seq::<char>::empty())
                } else {
                    &&& views(out@) == split_pieces(non_blank(spoken))
                    &&& final(self).collected() == rest_after(text, joined(spoken).len())
                }
            },
            old(self).started() ==> {
                let text = old(self).collected() + stripped(token@);
                let pieces = segmented("zh"@, text);
                let spoken = pieces.take(pieces.len() - 1);
                !text.contains('\n') && pieces.len() > 0 ==> {
                    &&& joined(spoken) + final(self).collected() == text
                    &&& final(self).collected() == pieces.last()
                }
            },
    {
        let mut result: Vec<String> = Vec::new();
        if !self.first_chunk_emitted {
            let mut token_chars = chars_of(token);
            self.token_buffer.append(&mut token_chars);
            if is_word_boundary(token) && !is_blank_chars(self.token_buffer.as_slice()) {
                let chunk = string_of(self.token_buffer.as_slice());
                self.token_buffer = Vec::new();
                self.first_chunk_emitted = true;
                self.last_flush_time = instant_now();
                proof {
                    lemma_views_push(result@, chunk);
                    assert(views(result@) =~= Seq::<Seq<char>>::empty());
                }
                result.push(chunk);
            }
            return result;
        }
        let filtered = filter(token);
        let mut filtered_chars = chars_of(filtered.as_str());
        self.text_collector.append(&mut filtered_chars);
        let text = string_of(self.text_collector.as_slice());
        let sentences = segment_sentences("zh", text.as_str());
        if sentences.len() == 0 {
            let waited = elapsed_since(&self.last_flush_time);
            let timed_out = duration_at_least(&waited, &self.timeout_duration);
            return self.flush_if_timed_out(timed_out);
        }
        let n = sentences.len();
        let total = self.text_collector.len();
        let ghost pieces = views(sentences@);
        let mut consumed: usize = 0;
        let mut i: usize = 0;
        assert(pieces.take(0) =~= Seq::<Seq<char>>::empty());
        assert(views(result@) =~= Seq::<Seq<char>>::empty());
        while i + 1 < n
            invariant
                n == sentences@.len(),
                n >= 1,
                i + 1 <= n,
                total == self.text_collector@.len(),
                pieces == views(sentences@),
                consumed == if joined(pieces.take(i as int)).len() <= total {
                    joined(pieces.take(i as int)).len()
                } else {
                    total as nat
                },
                views(result@) == split_pieces(non_blank(pieces.take(i as int))),
            decreases n - i,
        {
            let sentence = sentences[i].clone();
            let sentence_chars = chars_of(sentence.as_str());
            let ghost prefix = pieces.take(i + 1);
            proof {
                assert(prefix.drop_last() =~= pieces.take(i as int));
                assert(prefix.last() == sentence@);
            }
            if sentence_chars.len() <= total - consumed {
                consumed = consumed + sentence_chars.len();
            } else {
                consumed = total;
            }
            if !is_blank_chars(sentence_chars.as_slice()) {
                let mut one: Vec<String> = Vec::new();
                one.push(sentence);
                let mut chunks = split_long_sentences(one);
                proof {
                    assert(views(one@) =~= seq![sentence@]);
                    lemma_split_single(sentence@);
                    lemma_views_concat(result@, chunks@);
                    let kept = non_blank(pieces.take(i as int));
                    assert(non_blank(prefix) == kept.push(sentence@));
                    assert(kept.push(sentence@).drop_last() =~= kept);
                }
                result.append(&mut chunks);
            }
            i += 1;
        }
        proof {
            assert(i + 1 == n);
        }
        let rest = self.text_collector.split_off(consumed);
        self.text_collector = rest;
        self.last_flush_time = instant_now();
        proof {
            let spoken = pieces.take(n - 1);
            if !text@.contains('\n') {
                assert(pieces =~= spoken.push(pieces.last()));
                assert(joined(pieces) == joined(spoken) + pieces.last());
                assert(self.text_collector@ =~= pieces.last());
            }
        }
        result
    }

    /// What follows when the segmenter finds no sentence in the collected
    /// text, given whether the timeout has passed since the last flush: a
    /// collected text that is not blank then leaves whole and the collector
    /// empties (restarting the timer); otherwise nothing leaves.
    pub fn flush_if_timed_out(&mut self, timed_out: bool) -> (out: Vec<String>)
        ensures
            final(self).started() == old(self).started(),
            final(self).pending() == old(self).pending(),
            if timed_out && !is_blank(old(self).collected()) {
                &&& views(out@) == seq![old(self).collected()]
                &&& final(self).collected() == Seq::<char>::empty()
            } else {
                &&& out@.len() == 0
                &&& final(self).collected() == old(self).collected()
            },
    {
        let mut result: Vec<String> = Vec::new();
        if timed_out && !is_blank_chars(self.text_collector.as_slice()) {
            let text = string_of(self.text_collector.as_slice());
            self.text_collector = Vec::new();
            self.last_flush_time = instant_now();
            proof {
                lemma_views_push(result@, text);
                assert(views(result@) =~= Seq::<Seq<char>>::empty());
            }
            result.push(text);
        }
        result
    }

    /// [`Self::accept_token`] for any token: `None`, with the splitter left
    /// as it was, exactly when the first chunk has gone out and stripping
    /// the token's markdown would stop at the regex engine's backtracking
    /// limit; otherwise what [`Self::accept_token`] does.
    pub fn try_accept_token(&mut self, token: &str) -> (out: Option<Vec<String>>)
        ensures
            (out is None) == (old(self).started() && !strips_cleanly(token@)),
            out is None ==> {
                &&& final(self).started() == old(self).started()
                &&& final(self).pending() == old(self).pending()
                &&& final(self).collected() == old(self).collected()
            },
            out matches Some(chunks) ==> token_accepted(*old(self), *final(self), token@, chunks@),
    {
        if self.first_chunk_emitted && !strip_runs(token) {
            return None;
        }
        Some(self.accept_token(token))
    }

    /// The end of the reply: everything still held leaves, gathered tokens
    /// first, then the collected text cut as any sentence is.
    pub fn accept_final(&mut self) -> (out: Vec<String>)
        ensures
            views(out@) == (if old(self).pending().len() > 0 {
                seq![old(self).pending()]
            } else {
                Seq::empty()
            }) + (if old(self).collected().len() > 0 {
                split_piece(old(self).collected())
            } else {
                Seq::empty()
            }),
            final(self).pending() == Seq::<char>::empty(),
            final(self).collected() == Seq::<char>::empty(),
            final(self).started() == old(self).started(),
    {
        let mut result: Vec<String> = Vec::new();
        assert(views(result@) =~= Seq::<Seq<char>>::empty());
        if self.token_buffer.len() > 0 {
            let chunk = string_of(self.token_buffer.as_slice());
            self.token_buffer = Vec::new();
            proof {
                lemma_views_push(result@, chunk);
            }
            result.push(chunk);
        }
        if self.text_collector.len() > 0 {
            let collected = string_of(self.text_collector.as_slice());
            let mut one: Vec<String> = Vec::new();
            one.push(collected);
            let mut chunks = split_long_sentences(one);
            proof {
                assert(views(one@) =~= seq![collected@]);
                lemma_split_single(collected@);
                lemma_views_concat(result@, chunks@);
            }
            result.append(&mut chunks);
            self.text_collector = Vec::new();
        }
        proof {
            assert(self.token_buffer@ =~= Seq::<char>::empty());
            assert(self.text_collector@ =~= Seq::<char>::empty());
            assert(views(result@) =~= (if old(self).pending().len() > 0 {
                seq![old(self).pending()]
            } else {
                Seq::empty()
            }) + (if old(self).collected().len() > 0 {
                split_piece(old(self).collected())
            } else {
                Seq::empty()
            }));
        }
        result
    }
}


// ---------------------------------------------------------------------------
// Laws.

proof fn lemma_joined_concat(a: Seq<Seq<char>>, b: Seq<Seq<char>>)
    ensures
        joined(a + b) == joined(a) + joined(b),
    decreases b.len(),
{
    if b.len() == 0 {
        assert(a + b =~= a);
        assert(joined(a) + Seq::<char>::empty() =~= joined(a));
    } else {
        lemma_joined_concat(a, b.drop_last());
        assert((a + b).drop_last() =~= a + b.drop_last());
        assert(joined(a) + joined(b.drop_last()) + b.last() =~= joined(a) + (joined(b.drop_last())
            + b.last()));
    }
}

proof fn lemma_clause_pieces_keep_text(s: Seq<char>, buf: Seq<char>)
    ensures
        joined(clause_pieces(s, buf)) == buf + s,
    decreases s.len(),
{
    if s.len() == 0 {
        assert(buf + s =~= buf);
        if buf.len() == 0 {
            assert(clause_pieces(s, buf) == Seq::<Seq<char>>::empty());
            assert(joined(Seq::<Seq<char>>::empty()) =~= buf);
        } else {
            let one = seq![buf];
            assert(clause_pieces(s, buf) == one);
            assert(one.drop_last() =~= Seq::<Seq<char>>::empty());
            assert(one.last() == buf);
            assert(joined(one.drop_last()) =~= Seq::<char>::empty());
            assert(Seq::<char>::empty() + buf =~= buf);
        }
    } else {
        let grown = buf.push(s[0]);
        let rest = s.drop_first();
        assert(grown + rest =~= buf + s);
        if is_clause_mark(s[0]) && utf8_len(grown) >= MAX_CHUNK_CHARS / 2 {
            let one = seq![grown];
            lemma_clause_pieces_keep_text(rest, Seq::empty());
            lemma_joined_concat(one, clause_pieces(rest, Seq::empty()));
            assert(clause_pieces(s, buf) == one + clause_pieces(rest, Seq::empty()));
            assert(one.drop_last() =~= Seq::<Seq<char>>::empty());
            assert(one.last() == grown);
            assert(joined(one.drop_last()) =~= Seq::<char>::empty());
            assert(Seq::<char>::empty() + grown =~= grown);
            assert(Seq::<char>::empty() + rest =~= rest);
        } else {
            lemma_clause_pieces_keep_text(rest, grown);
            assert(clause_pieces(s, buf) == clause_pieces(rest, grown));
        }
    }
}

/// Cutting a sentence for speech loses and repeats nothing: its pieces,
/// written one after another, give back the sentence.
pub proof fn lemma_split_piece_keeps_text(s: Seq<char>)
    ensures
        joined(split_piece(s)) == s,
{
    if utf8_len(s) <= MAX_CHUNK_CHARS && word_count(s) <= MAX_CHUNK_WORDS {
        let one = seq![s];
        assert(one.drop_last() =~= Seq::<Seq<char>>::empty());
        assert(one.last() == s);
        assert(joined(one.drop_last()) =~= Seq::<char>::empty());
        assert(Seq::<char>::empty() + s =~= s);
        assert(split_piece(s) == one);
    } else {
        lemma_clause_pieces_keep_text(s, Seq::empty());
        assert(Seq::<char>::empty() + s =~= s);
        assert(split_piece(s) == clause_pieces(s, Seq::empty()));
    }
}

/// Cutting every sentence keeps the text: the spoken pieces of a run of
/// sentences, written one after another, give back the run.
pub proof fn lemma_split_pieces_keep_text(ss: Seq<Seq<char>>)
    ensures
        joined(split_pieces(ss)) == joined(ss),
    decreases ss.len(),
{
    if ss.len() > 0 {
        lemma_split_pieces_keep_text(ss.drop_last());
        lemma_split_piece_keeps_text(ss.last());
        lemma_joined_concat(split_pieces(ss.drop_last()), split_piece(ss.last()));
    }
}

/// A point after which an over-long sentence is cut: the piece ends on a
/// clause mark and holds at least 125 bytes.
pub open spec fn cut_point(p: Seq<char>) -> bool {
    p.len() > 0 && is_clause_mark(p.last()) && utf8_len(p) >= 125
}

proof fn lemma_clause_pieces_earliest(s: Seq<char>, buf: Seq<char>)
    requires
        forall|k: int| 1 <= k <= buf.len() ==> !cut_point(#[trigger] buf.take(k)),
    ensures
        buf.len() + s.len() > 0 ==> clause_pieces(s, buf).len() > 0,
        forall|i: int|
            0 <= i < clause_pieces(s, buf).len() - 1 ==> cut_point(#[trigger] clause_pieces(s, buf)[i]),
        forall|i: int, k: int|
            0 <= i < clause_pieces(s, buf).len() && 1 <= k < clause_pieces(s, buf)[i].len() ==> !cut_point(
                #[trigger] clause_pieces(s, buf)[i].take(k),
            ),
    decreases s.len(),
{
    if s.len() == 0 {
        if buf.len() > 0 {
            assert(clause_pieces(s, buf) == seq![buf]);
        }
    } else {
        let grown = buf.push(s[0]);
        let rest = s.drop_first();
        assert forall|k: int| 1 <= k <= buf.len() implies !cut_point(#[trigger] grown.take(k)) by {
            assert(grown.take(k) =~= buf.take(k));
        }
        assert(grown.take(grown.len() as int) =~= grown);
        assert(grown.last() == s[0]);
        if is_clause_mark(s[0]) && utf8_len(grown) >= MAX_CHUNK_CHARS / 2 {
            lemma_clause_pieces_earliest(rest, Seq::empty());
            let tail = clause_pieces(rest, Seq::empty());
            let all = seq![grown] + tail;
            assert(clause_pieces(s, buf) == all);
            assert(all[0] == grown);
            assert(cut_point(grown));
            assert forall|i: int| 0 < i < all.len() implies all[i] == tail[i - 1] by {}
            assert forall|i: int, k: int| 0 <= i < all.len() && 1 <= k < all[i].len() implies !cut_point(
                #[trigger] all[i].take(k),
            ) by {
                if i == 0 {
                    assert(!cut_point(grown.take(k)));
                } else {
                    assert(all[i] == tail[i - 1]);
                }
            }
        } else {
            assert(!cut_point(grown));
            assert forall|k: int| 1 <= k <= grown.len() implies !cut_point(#[trigger] grown.take(k)) by {
                if k == grown.len() {
                    assert(grown.take(k) =~= grown);
                }
            }
            lemma_clause_pieces_earliest(rest, grown);
            assert(clause_pieces(s, buf) == clause_pieces(rest, grown));
        }
    }
}

/// A sentence of at most 250 bytes and at most 30 words is spoken whole.
/// Any other sentence is cut at the earliest points: its pieces, written
/// one after another, give the sentence back; none is empty; every piece but
/// the last ends on a clause mark after reaching 125 bytes; and no piece
/// holds such a point before its own end.
pub proof fn lemma_long_sentence_cut(s: Seq<char>)
    requires
        s.len() > 0,
    ensures
        utf8_len(s) <= 250 && word_count(s) <= 30 ==> split_piece(s) == seq![s],
        !(utf8_len(s) <= 250 && word_count(s) <= 30) ==> {
            let p = split_piece(s);
            &&& joined(p) == s
            &&& p.len() > 0
            &&& forall|i: int| 0 <= i < p.len() ==> (#[trigger] p[i]).len() > 0
            &&& forall|i: int| 0 <= i < p.len() - 1 ==> cut_point(#[trigger] p[i])
            &&& forall|i: int, k: int| 0 <= i < p.len() && 1 <= k < p[i].len() ==> !cut_point(#[trigger] p[i].take(k))
        },
{
    lemma_split_piece_keeps_text(s);
    if !(utf8_len(s) <= 250 && word_count(s) <= 30) {
        assert(split_piece(s) == clause_pieces(s, Seq::empty()));
        lemma_clause_pieces_earliest(s, Seq::empty());
        lemma_clause_pieces_shape(s, Seq::empty());
    }
}

/// A piece cut from an over-long sentence is never empty, and every piece
/// but the last ends on a clause mark.
pub proof fn lemma_clause_pieces_shape(s: Seq<char>, buf: Seq<char>)
    ensures
        forall|i: int|
            0 <= i < clause_pieces(s, buf).len() ==> (#[trigger] clause_pieces(s, buf)[i]).len() > 0,
        forall|i: int|
            0 <= i < clause_pieces(s, buf).len() - 1 ==> is_clause_mark(
                (#[trigger] clause_pieces(s, buf)[i]).last(),
            ),
    decreases s.len(),
{
    if s.len() > 0 {
        let grown = buf.push(s[0]);
        let rest = s.drop_first();
        if is_clause_mark(s[0]) && utf8_len(grown) >= MAX_CHUNK_CHARS / 2 {
            lemma_clause_pieces_shape(rest, Seq::empty());
            let tail = clause_pieces(rest, Seq::empty());
            let all = seq![grown] + tail;
            assert(clause_pieces(s, buf) == all);
            assert(all[0] == grown);
            assert forall|i: int| 0 < i < all.len() implies all[i] == tail[i - 1] by {}
            assert(grown.last() == s[0]);
        } else {
            lemma_clause_pieces_shape(rest, grown);
            assert(clause_pieces(s, buf) == clause_pieces(rest, grown));
        }
    }
}

} // verus!
