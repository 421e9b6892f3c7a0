//! Derivation of a bounded, single-line summary from a raw description.
//!
//! The pipeline removes line breaks, strips HTML-like markup (including an
//! unterminated tag at the end of the text), trims surrounding whitespace,
//! and finally truncates the text to [`SUMMARY_MAX_CHARS`] characters,
//! appending an ellipsis when truncation happens. All counting is done in
//! characters (Unicode scalar values), never bytes, so characters are never
//! split.

use vstd::prelude::*;

verus! {

/// Maximum number of characters a summary may have.
pub const SUMMARY_MAX_CHARS: usize = 100;

/// Number of characters kept from the cleaned text when it is truncated;
/// leaves room for the three-character ellipsis marker.
pub const SUMMARY_KEEP_CHARS: usize = 97;

/// The characters that trimming removes: the Unicode white-space characters,
/// as `str::trim` understands them.
pub open spec fn is_space_char(c: char) -> bool {
    c == ' ' || c == '\t' || c == '\n' || c == '\r' || c == '\u{b}' || c == '\u{c}'
        || c == '\u{85}' || c == '\u{a0}' || c == '\u{1680}' || c == '\u{2000}'
        || c == '\u{2001}' || c == '\u{2002}' || c == '\u{2003}' || c == '\u{2004}'
        || c == '\u{2005}' || c == '\u{2006}' || c == '\u{2007}' || c == '\u{2008}'
        || c == '\u{2009}' || c == '\u{200a}' || c == '\u{2028}' || c == '\u{2029}'
        || c == '\u{202f}' || c == '\u{205f}' || c == '\u{3000}'
}

/// Whether `c` is one of the white-space characters that trimming removes.
pub fn is_space(c: char) -> (r: bool)
    ensures
        r == is_space_char(c),
{
    c == ' ' || c == '\t' || c == '\n' || c == '\r' || c == '\u{b}' || c == '\u{c}'
        || c == '\u{85}' || c == '\u{a0}' || c == '\u{1680}' || c == '\u{2000}'
        || c == '\u{2001}' || c == '\u{2002}' || c == '\u{2003}' || c == '\u{2004}'
        || c == '\u{2005}' || c == '\u{2006}' || c == '\u{2007}' || c == '\u{2008}'
        || c == '\u{2009}' || c == '\u{200a}' || c == '\u{2028}' || c == '\u{2029}'
        || c == '\u{202f}' || c == '\u{205f}' || c == '\u{3000}'
}

/// The text with every line-break character removed.
pub open spec fn newline_removed(s: Seq<char>) -> Seq<char>
    decreases s.len(),
{
    if s.len() == 0 {
        Seq::empty()
    } else if s.first() == '\n' {
        newline_removed(s.drop_first())
    } else {
        seq![s.first()] + newline_removed(s.drop_first())
    }
}

/// Removes every `'\n'` from the text, producing a single logical line.
pub fn remove_line_breaks(s: &str) -> (r: String)
    ensures
        r@ == newline_removed(s@),
{
    let n = s.unicode_len();
    let mut out = String::new();
    let mut i: usize = 0;
    proof {
        assert(out@ + newline_removed(s@.skip(0)) =~= newline_removed(s@.skip(0)));
        assert(s@.skip(0) =~= s@);
    }
    while i < n
        invariant
            n == s@.len(),
            i <= n,
            newline_removed(s@) == out@ + newline_removed(s@.skip(i as int)),
        decreases n - i,
    {
        let c = s.get_char(i);
        proof {
            let t = s@.skip(i as int);
            assert(t.first() == s@[i as int]);
            assert(t.drop_first() =~= s@.skip(i as int + 1));
        }
        if c != '\n' {
            out.append(s.substring_char(i, i + 1));
            proof {
                assert(s@.subrange(i as int, i as int + 1) =~= seq![s@[i as int]]);
                assert(newline_removed(s@.skip(i as int)) == seq![s@[i as int]]
                    + newline_removed(s@.skip(i as int + 1)));
                assert(out@ + newline_removed(s@.skip(i as int + 1)) =~= newline_removed(s@));
            }
        }
        i = i + 1;
    }
    proof {
        assert(s@.skip(n as int) =~= Seq::<char>::empty());
        assert(out@ + newline_removed(s@.skip(n as int)) =~= out@);
    }
    out
}

/// The text with markup removed, scanned left to right. Outside a tag,
/// a `'<'` opens a tag and every other character is kept; inside a tag,
/// characters are dropped up to and including the closing `'>'`. A tag
/// still open at the end of the text is dropped through the end.
pub open spec fn tags_removed_from(s: Seq<char>, in_tag: bool) -> Seq<char>
    decreases s.len(),
{
    if s.len() == 0 {
        Seq::empty()
    } else if in_tag {
        tags_removed_from(s.drop_first(), s.first() != '>')
    } else if s.first() == '<' {
        tags_removed_from(s.drop_first(), true)
    } else {
        seq![s.first()] + tags_removed_from(s.drop_first(), false)
    }
}

/// The text with every markup tag removed: each substring that starts at a
/// `'<'` and runs to the next `'>'`, or to the end of the text when no
/// `'>'` follows.
pub open spec fn tags_removed(s: Seq<char>) -> Seq<char> {
    tags_removed_from(s, false)
}

/// Deletes every markup tag, including an unterminated one at the end.
pub fn remove_markup(s: &str) -> (r: String)
    ensures
        r@ == tags_removed(s@),
{
    let n = s.unicode_len();
    let mut out = String::new();
    let mut in_tag = false;
    let mut i: usize = 0;
    proof {
        assert(out@ + tags_removed_from(s@.skip(0), false) =~= tags_removed_from(s@.skip(0), false));
        assert(s@.skip(0) =~= s@);
    }
    while i < n
        invariant
            n == s@.len(),
            i <= n,
            tags_removed(s@) == out@ + tags_removed_from(s@.skip(i as int), in_tag),
        decreases n - i,
    {
        let c = s.get_char(i);
        proof {
            let t = s@.skip(i as int);
            assert(t.first() == s@[i as int]);
            assert(t.drop_first() =~= s@.skip(i as int + 1));
        }
        if in_tag {
            in_tag = c != '>';
        } else if c == '<' {
            in_tag = true;
        } else {
            out.append(s.substring_char(i, i + 1));
            proof {
                assert(s@.subrange(i as int, i as int + 1) =~= seq![s@[i as int]]);
                assert(out@ + tags_removed_from(s@.skip(i as int + 1), false)
                    =~= tags_removed(s@));
            }
        }
        i = i + 1;
    }
    proof {
        assert(s@.skip(n as int) =~= Seq::<char>::empty());
        assert(out@ + tags_removed_from(s@.skip(n as int), in_tag) =~= out@);
    }
    out
}

/// The text without its leading white-space characters.
pub open spec fn trimmed_start(s: Seq<char>) -> Seq<char>
    decreases s.len(),
{
    if s.len() > 0 && is_space_char(s.first()) {
        trimmed_start(s.drop_first())
    } else {
        s
    }
}

/// The text without its trailing white-space characters.
pub open spec fn trimmed_end(s: Seq<char>) -> Seq<char>
    decreases s.len(),
{
    if s.len() > 0 && is_space_char(s.last()) {
        trimmed_end(s.drop_last())
    } else {
        s
    }
}

/// The text without leading and trailing white space.
pub open spec fn trimmed(s: Seq<char>) -> Seq<char> {
    trimmed_end(trimmed_start(s))
}

/// Removes leading and trailing white space.
pub fn trim_text(s: &str) -> (r: String)
    ensures
        r@ == trimmed(s@),
{
    let n = s.unicode_len();
    let mut a: usize = 0;
    proof {
        assert(s@.skip(0) =~= s@);
    }
    while a < n && is_space(s.get_char(a))
        invariant
            n == s@.len(),
            a <= n,
            trimmed_start(s@) == trimmed_start(s@.skip(a as int)),
        decreases n - a,
    {
        proof {
            let t = s@.skip(a as int);
            assert(t.first() == s@[a as int]);
            assert(t.drop_first() =~= s@.skip(a as int + 1));
        }
        a = a + 1;
    }
    proof {
        let t = s@.skip(a as int);
        if a < n {
            assert(t.first() == s@[a as int]);
        } else {
            assert(t =~= Seq::<char>::empty());
        }
        assert(trimmed_start(s@) == t);
        assert(t =~= s@.subrange(a as int, n as int));
    }
    let mut b: usize = n;
    while b > a && is_space(s.get_char(b - 1))
        invariant
            n == s@.len(),
            a <= b <= n,
            trimmed_end(s@.skip(a as int)) == trimmed_end(s@.subrange(a as int, b as int)),
        decreases b,
    {
        proof {
            let t = s@.subrange(a as int, b as int);
            assert(t.last() == s@[b as int - 1]);
            assert(t.drop_last() =~= s@.subrange(a as int, b as int - 1));
        }
        b = b - 1;
    }
    proof {
        let t = s@.subrange(a as int, b as int);
        if b > a {
            assert(t.last() == s@[b as int - 1]);
        }
        assert(trimmed(s@) == t);
    }
    String::from_str(s.substring_char(a, b))
}

/// The cleaned form of a description: line breaks removed, then markup
/// tags removed, then surrounding white space trimmed.
pub open spec fn cleaned(s: Seq<char>) -> Seq<char> {
    trimmed(tags_removed(newline_removed(s)))
}

/// The three-character ellipsis marker appended when a summary is truncated.
pub open spec fn ellipsis() -> Seq<char> {
    seq!['.', '.', '.']
}

/// The summary of a description: its cleaned form, truncated to
/// [`SUMMARY_KEEP_CHARS`] characters plus the ellipsis marker whenever the
/// cleaned form has [`SUMMARY_MAX_CHARS`] characters or more.
pub open spec fn summarized(s: Seq<char>) -> Seq<char> {
    let c = cleaned(s);
    if c.len() >= SUMMARY_MAX_CHARS {
        c.subrange(0, SUMMARY_KEEP_CHARS as int) + ellipsis()
    } else {
        c
    }
}

/// Derives the bounded single-line summary of a raw description: removes
/// line breaks, strips markup tags (including an unterminated trailing
/// tag), trims white space, and truncates to [`SUMMARY_MAX_CHARS`]
/// characters with an ellipsis when the cleaned text is at least that
/// long. Counts characters, not bytes, so no character is ever split.
pub fn summarize(description: &str) -> (r: String)
    ensures
        r@ == summarized(description@),
{
    let no_breaks = remove_line_breaks(description);
    let no_markup = remove_markup(no_breaks.as_str());
    let clean = trim_text(no_markup.as_str());
    let n = clean.as_str().unicode_len();
    if n >= SUMMARY_MAX_CHARS {
        let mut r = String::from_str(clean.as_str().substring_char(0, SUMMARY_KEEP_CHARS));
        r.append("...");
        proof {
            reveal_strlit("...");
            assert("..."@ =~= ellipsis());
            assert(r@ =~= summarized(description@));
        }
        r
    } else {
        clean
    }
}

proof fn lemma_newline_removed_no_newline(s: Seq<char>)
    ensures
        forall|i: int| 0 <= i < newline_removed(s).len() ==> newline_removed(s)[i] != '\n',
    decreases s.len(),
{
    if s.len() > 0 {
        lemma_newline_removed_no_newline(s.drop_first());
        let r = newline_removed(s);
        let t = newline_removed(s.drop_first());
        assert forall|i: int| 0 <= i < r.len() implies r[i] != '\n' by {
            if s.first() != '\n' && i > 0 {
                assert(r[i] == t[i - 1]);
            }
        }
    }
}

proof fn lemma_newline_removed_id(s: Seq<char>)
    requires
        forall|i: int| 0 <= i < s.len() ==> s[i] != '\n',
    ensures
        newline_removed(s) == s,
    decreases s.len(),
{
    if s.len() == 0 {
        assert(newline_removed(s) =~= s);
    } else {
        assert(forall|i: int| 0 <= i < s.drop_first().len() ==> s.drop_first()[i] == s[i + 1]);
        lemma_newline_removed_id(s.drop_first());
        assert(seq![s.first()] + s.drop_first() =~= s);
    }
}

proof fn lemma_tags_removed_no_tag_open(s: Seq<char>, in_tag: bool)
    ensures
        forall|i: int| 0 <= i < tags_removed_from(s, in_tag).len()
            ==> tags_removed_from(s, in_tag)[i] != '<',
    decreases s.len(),
{
    if s.len() > 0 {
        if in_tag {
            lemma_tags_removed_no_tag_open(s.drop_first(), s.first() != '>');
            assert(tags_removed_from(s, in_tag)
                == tags_removed_from(s.drop_first(), s.first() != '>'));
        } else if s.first() == '<' {
            lemma_tags_removed_no_tag_open(s.drop_first(), true);
            assert(tags_removed_from(s, in_tag) == tags_removed_from(s.drop_first(), true));
        } else {
            lemma_tags_removed_no_tag_open(s.drop_first(), false);
            let r = tags_removed_from(s, in_tag);
            let t = tags_removed_from(s.drop_first(), false);
            assert forall|i: int| 0 <= i < r.len() implies r[i] != '<' by {
                if i > 0 {
                    assert(r[i] == t[i - 1]);
                }
            }
        }
    }
}

proof fn lemma_tags_removed_keeps_missing(s: Seq<char>, in_tag: bool, c: char)
    requires
        forall|i: int| 0 <= i < s.len() ==> s[i] != c,
    ensures
        forall|i: int| 0 <= i < tags_removed_from(s, in_tag).len()
            ==> tags_removed_from(s, in_tag)[i] != c,
    decreases s.len(),
{
    if s.len() > 0 {
        assert(forall|i: int| 0 <= i < s.drop_first().len() ==> s.drop_first()[i] == s[i + 1]);
        if in_tag {
            lemma_tags_removed_keeps_missing(s.drop_first(), s.first() != '>', c);
            assert(tags_removed_from(s, in_tag)
                == tags_removed_from(s.drop_first(), s.first() != '>'));
        } else if s.first() == '<' {
            lemma_tags_removed_keeps_missing(s.drop_first(), true, c);
            assert(tags_removed_from(s, in_tag) == tags_removed_from(s.drop_first(), true));
        } else {
            lemma_tags_removed_keeps_missing(s.drop_first(), false, c);
            let r = tags_removed_from(s, in_tag);
            let t = tags_removed_from(s.drop_first(), false);
            assert forall|i: int| 0 <= i < r.len() implies r[i] != c by {
                if i > 0 {
                    assert(r[i] == t[i - 1]);
                }
            }
        }
    }
}

proof fn lemma_tags_removed_id(s: Seq<char>)
    requires
        forall|i: int| 0 <= i < s.len() ==> s[i] != '<',
    ensures
        tags_removed(s) == s,
    decreases s.len(),
{
    if s.len() == 0 {
        assert(tags_removed(s) =~= s);
    } else {
        assert(forall|i: int| 0 <= i < s.drop_first().len() ==> s.drop_first()[i] == s[i + 1]);
        lemma_tags_removed_id(s.drop_first());
        assert(seq![s.first()] + s.drop_first() =~= s);
    }
}

proof fn lemma_trimmed_start_shape(s: Seq<char>)
    ensures
        trimmed_start(s).len() <= s.len(),
        trimmed_start(s).len() > 0 ==> !is_space_char(trimmed_start(s).first()),
    decreases s.len(),
{
    if s.len() > 0 && is_space_char(s.first()) {
        lemma_trimmed_start_shape(s.drop_first());
    }
}

proof fn lemma_trimmed_start_keeps_missing(s: Seq<char>, c: char)
    requires
        forall|i: int| 0 <= i < s.len() ==> s[i] != c,
    ensures
        forall|i: int| 0 <= i < trimmed_start(s).len() ==> trimmed_start(s)[i] != c,
    decreases s.len(),
{
    if s.len() > 0 && is_space_char(s.first()) {
        assert(forall|i: int| 0 <= i < s.drop_first().len() ==> s.drop_first()[i] == s[i + 1]);
        lemma_trimmed_start_keeps_missing(s.drop_first(), c);
        assert(trimmed_start(s) == trimmed_start(s.drop_first()));
    }
}

proof fn lemma_trimmed_end_prefix(s: Seq<char>)
    ensures
        trimmed_end(s).len() <= s.len(),
        trimmed_end(s) == s.subrange(0, trimmed_end(s).len() as int),
        trimmed_end(s).len() > 0 ==> !is_space_char(trimmed_end(s).last()),
    decreases s.len(),
{
    if s.len() > 0 && is_space_char(s.last()) {
        lemma_trimmed_end_prefix(s.drop_last());
        assert(s.drop_last().subrange(0, trimmed_end(s).len() as int)
            =~= s.subrange(0, trimmed_end(s).len() as int));
    } else {
        assert(s.subrange(0, s.len() as int) =~= s);
    }
}

proof fn lemma_trimmed_shape(s: Seq<char>)
    ensures
        trimmed(s).len() <= s.len(),
        trimmed(s).len() > 0 ==> !is_space_char(trimmed(s).first()),
        trimmed(s).len() > 0 ==> !is_space_char(trimmed(s).last()),
{
    let t = trimmed_start(s);
    lemma_trimmed_start_shape(s);
    lemma_trimmed_end_prefix(t);
    if trimmed(s).len() > 0 {
        assert(trimmed(s).first() == t.subrange(0, trimmed(s).len() as int)[0]);
        assert(trimmed(s).first() == t.first());
    }
}

proof fn lemma_trimmed_keeps_missing(s: Seq<char>, c: char)
    requires
        forall|i: int| 0 <= i < s.len() ==> s[i] != c,
    ensures
        forall|i: int| 0 <= i < trimmed(s).len() ==> trimmed(s)[i] != c,
{
    let t = trimmed_start(s);
    lemma_trimmed_start_keeps_missing(s, c);
    lemma_trimmed_end_prefix(t);
    assert(forall|i: int| 0 <= i < trimmed(s).len()
        ==> trimmed(s)[i] == t.subrange(0, trimmed(s).len() as int)[i]);
}

proof fn lemma_trimmed_id(s: Seq<char>)
    requires
        s.len() == 0 || (!is_space_char(s.first()) && !is_space_char(s.last())),
    ensures
        trimmed(s) == s,
{
    assert(trimmed_start(s) == s);
    assert(trimmed_end(s) == s);
}

proof fn lemma_cleaned_props(s: Seq<char>)
    ensures
        forall|i: int| 0 <= i < cleaned(s).len()
            ==> cleaned(s)[i] != '\n' && cleaned(s)[i] != '<',
        cleaned(s).len() > 0 ==> !is_space_char(cleaned(s).first()),
        cleaned(s).len() > 0 ==> !is_space_char(cleaned(s).last()),
{
    let a = newline_removed(s);
    let b = tags_removed(a);
    lemma_newline_removed_no_newline(s);
    lemma_tags_removed_keeps_missing(a, false, '\n');
    lemma_tags_removed_no_tag_open(a, false);
    lemma_trimmed_keeps_missing(b, '\n');
    lemma_trimmed_keeps_missing(b, '<');
    lemma_trimmed_shape(b);
}

proof fn lemma_cleaned_id_on_clean(s: Seq<char>)
    requires
        forall|i: int| 0 <= i < s.len() ==> s[i] != '\n' && s[i] != '<',
        s.len() == 0 || (!is_space_char(s.first()) && !is_space_char(s.last())),
    ensures
        cleaned(s) == s,
{
    lemma_newline_removed_id(s);
    lemma_tags_removed_id(s);
    lemma_trimmed_id(s);
}

/// Law: on a text with no markup and no line break whose character count is
/// below the truncation threshold, summarizing only trims the white space.
pub proof fn lemma_summarize_plain_text(s: Seq<char>)
    requires
        forall|i: int| 0 <= i < s.len() ==> s[i] != '\n' && s[i] != '<',
        s.len() < SUMMARY_MAX_CHARS,
    ensures
        summarized(s) == trimmed(s),
{
    lemma_newline_removed_id(s);
    lemma_tags_removed_id(s);
    lemma_trimmed_shape(s);
}

/// Law: whenever the cleaned text reaches the threshold, the summary has
/// exactly [`SUMMARY_MAX_CHARS`] characters and ends with the ellipsis.
pub proof fn lemma_summarize_truncates(s: Seq<char>)
    requires
        cleaned(s).len() >= SUMMARY_MAX_CHARS,
    ensures
        summarized(s).len() == SUMMARY_MAX_CHARS,
        summarized(s).subrange(SUMMARY_KEEP_CHARS as int, SUMMARY_MAX_CHARS as int)
            == ellipsis(),
{
    assert(summarized(s).subrange(SUMMARY_KEEP_CHARS as int, SUMMARY_MAX_CHARS as int)
        =~= ellipsis());
}

/// Law: the summary never invents characters. Below the threshold it is the
/// cleaned text itself; at or above it, every character before the ellipsis
/// is the cleaned text's character at the same position.
pub proof fn lemma_summarize_preserves_characters(s: Seq<char>)
    ensures
        cleaned(s).len() < SUMMARY_MAX_CHARS ==> summarized(s) == cleaned(s),
        cleaned(s).len() >= SUMMARY_MAX_CHARS ==> forall|i: int|
            0 <= i < SUMMARY_KEEP_CHARS ==> summarized(s)[i] == cleaned(s)[i],
        cleaned(s).len() >= SUMMARY_MAX_CHARS
            ==> summarized(s).subrange(SUMMARY_KEEP_CHARS as int, SUMMARY_MAX_CHARS as int)
                == ellipsis(),
{
    if cleaned(s).len() >= SUMMARY_MAX_CHARS {
        lemma_summarize_truncates(s);
    }
}

/// Law: summarizing is idempotent; a second pass changes nothing, whether or
/// not the first pass truncated.
pub proof fn lemma_summarize_idempotent(s: Seq<char>)
    ensures
        summarized(summarized(s)) == summarized(s),
{
    let c = cleaned(s);
    lemma_cleaned_props(s);
    if c.len() < SUMMARY_MAX_CHARS {
        lemma_cleaned_id_on_clean(c);
    } else {
        let out = c.subrange(0, SUMMARY_KEEP_CHARS as int) + ellipsis();
        assert(summarized(s) == out);
        assert(out.len() == SUMMARY_MAX_CHARS);
        assert(forall|i: int| 0 <= i < SUMMARY_KEEP_CHARS ==> out[i] == c[i]);
        assert(out[97] == '.' && out[98] == '.' && out[99] == '.');
        assert(forall|i: int| 0 <= i < out.len() ==> out[i] != '\n' && out[i] != '<');
        assert(out.first() == c.first());
        assert(!is_space_char('.'));
        lemma_cleaned_id_on_clean(out);
        assert(summarized(out) == out.subrange(0, SUMMARY_KEEP_CHARS as int) + ellipsis());
        assert(out.subrange(0, SUMMARY_KEEP_CHARS as int)
            =~= c.subrange(0, SUMMARY_KEEP_CHARS as int));
    }
}

} // verus!
