//! The settings block: a `CaptureSettings:` marker and one
//! `# - enable_step_comments=<true|false>` line, kept as comments in a script.

use vstd::prelude::*;

use crate::text::{
    contains, find_text, first_occurrence, has_no_newline, lemma_first_occurrence_unique,
    lemma_line_end_from, line_end, line_end_from,
    lemma_occurs_in_concat, lemma_occurs_in_parts, lemma_occurs_in_subrange, occurs_at, same_text,
    trim_text, trimmed,
};

verus! {

/// Marks the section that holds the settings.
pub const SETTINGS_MARKER: &'static str = "CaptureSettings:";

/// The settings line with step comments switched on.
pub const STEP_COMMENTS_ON: &'static str = "# - enable_step_comments=true";

/// The settings line with step comments switched off.
pub const STEP_COMMENTS_OFF: &'static str = "# - enable_step_comments=false";

/// What every settings line starts with.
pub const SETTING_KEY: &'static str = "# - enable_step_comments=";

/// A settings line, anchored to a whole line of the text.
pub const SETTING_PATTERN: &'static str = "(?m)^# - enable_step_comments=(true|false)$";

pub open spec fn setting_line(v: bool) -> Seq<char> {
    if v {
        STEP_COMMENTS_ON@
    } else {
        STEP_COMMENTS_OFF@
    }
}

/// A line of `s` starts at `i`.
pub open spec fn line_starts_at(s: Seq<char>, i: int) -> bool {
    i == 0 || (0 < i <= s.len() && s[i - 1] == '\n')
}

/// A line of `s` ends at `e`.
pub open spec fn line_ends_at(s: Seq<char>, e: int) -> bool {
    e == s.len() || (0 <= e < s.len() && s[e] == '\n')
}

/// The whole line of `s` that starts at `i` is the settings line with value `v`.
pub open spec fn setting_at(s: Seq<char>, i: int, v: bool) -> bool {
    line_starts_at(s, i) && occurs_at(s, setting_line(v), i) && line_ends_at(
        s,
        i + setting_line(v).len(),
    )
}

pub open spec fn any_setting_at(s: Seq<char>, i: int) -> bool {
    setting_at(s, i, true) || setting_at(s, i, false)
}

pub open spec fn has_setting_line(s: Seq<char>) -> bool {
    exists|i: int| any_setting_at(s, i)
}

pub open spec fn first_setting_at(s: Seq<char>, i: int) -> bool {
    any_setting_at(s, i) && forall|j: int| 0 <= j < i ==> !any_setting_at(s, j)
}

/// Where the first settings line of `s` starts.
pub open spec fn first_setting(s: Seq<char>) -> int {
    choose|i: int| first_setting_at(s, i)
}

/// `s` with its first settings line replaced by `rep`; `s` itself where it has none.
pub open spec fn with_first_setting_replaced(s: Seq<char>, rep: Seq<char>) -> Seq<char> {
    if has_setting_line(s) {
        let i = first_setting(s);
        let len = setting_line(setting_at(s, i, true)).len();
        s.subrange(0, i) + rep + s.subrange(i + len, s.len() as int)
    } else {
        s
    }
}

/// Where the first settings marker of `s` starts.
pub open spec fn first_marker(s: Seq<char>) -> int {
    choose|i: int| first_occurrence(s, SETTINGS_MARKER@, i)
}

/// Where the line that holds the first settings marker of `s` ends.
pub open spec fn marker_line_end(s: Seq<char>) -> int {
    line_end_from(s, first_marker(s) + SETTINGS_MARKER@.len())
}

/// The text of a script after its step-comment setting is set to `v`.
pub open spec fn with_step_comments(s: Seq<char>, v: bool) -> Seq<char> {
    if contains(s, SETTINGS_MARKER@) {
        if has_setting_line(s) {
            with_first_setting_replaced(s, setting_line(v))
        } else {
            let e = marker_line_end(s);
            if e < s.len() {
                s.subrange(0, e + 1) + setting_line(v) + "\n"@ + s.subrange(e + 1, s.len() as int)
            } else {
                s + "\n"@ + setting_line(v)
            }
        }
    } else {
        s + "\n"@ + SETTINGS_MARKER@ + "\n"@ + setting_line(v) + "\n"@
    }
}

/// Step comments are on where the text holds the switched-on settings line.
pub open spec fn step_comments_on(s: Seq<char>) -> bool {
    contains(s, STEP_COMMENTS_ON@)
}

/// Relies on regex::Regex::new, which accepts this pattern, and on
/// regex::Regex::is_match: in multi-line mode `^` and `$` match at the ends of
/// the text and beside `\n` only, so on this pattern a match is a whole
/// settings line.
#[verifier::external_body]
fn regex_is_match(pattern: &str, text: &str) -> (r: bool)
    requires
        pattern@ == SETTING_PATTERN@,
    ensures
        r == has_setting_line(text@),
{
    regex::Regex::new(pattern).unwrap().is_match(text)
}

/// Relies on regex::Regex::new, which accepts this pattern, and on
/// regex::Regex::replace: the leftmost match, and only it, is replaced by `rep`,
/// taken literally through regex::NoExpand.
#[verifier::external_body]
fn regex_replace(pattern: &str, text: &str, rep: &str) -> (r: String)
    requires
        pattern@ == SETTING_PATTERN@,
    ensures
        r@ == with_first_setting_replaced(text@, rep@),
{
    regex::Regex::new(pattern).unwrap().replace(text, regex::NoExpand(rep)).into_owned()
}

/// The settings line for `enabled`.
pub fn setting_line_text(enabled: bool) -> (r: String)
    ensures
        r@ == setting_line(enabled),
{
    if enabled {
        String::from_str(STEP_COMMENTS_ON)
    } else {
        String::from_str(STEP_COMMENTS_OFF)
    }
}

/// Sets the step-comment setting of a script's text: the first settings line is
/// rewritten in place; without one a line is put right after the line that
/// holds the first marker;
/// without a marker, a marker and the line are added at the end.
pub fn set_step_comments(content: &str, enabled: bool) -> (r: String)
    ensures
        r@ == with_step_comments(content@, enabled),
{
    let line = setting_line_text(enabled);
    match find_text(content, SETTINGS_MARKER) {
        Some(i) => {
            proof {
                assert(contains(content@, SETTINGS_MARKER@));
                lemma_first_occurrence_unique(
                    content@,
                    SETTINGS_MARKER@,
                    i as int,
                    first_marker(content@),
                );
                reveal_strlit("CaptureSettings:");
                assert(SETTINGS_MARKER@.len() == 16);
            }
            if regex_is_match(SETTING_PATTERN, content) {
                regex_replace(SETTING_PATTERN, content, line.as_str())
            } else {
                let len = content.unicode_len();
                let e = line_end(content, i + 16);
                proof {
                    lemma_line_end_from(content@, i + 16);
                }
                if e < len {
                    let mut r = String::from_str(content.substring_char(0, e + 1));
                    r.append(line.as_str());
                    r.append("\n");
                    r.append(content.substring_char(e + 1, len));
                    r
                } else {
                    let mut r = String::from_str(content);
                    r.append("\n");
                    r.append(line.as_str());
                    r
                }
            }
        },
        None => {
            let mut r = String::from_str(content);
            r.append("\n");
            r.append(SETTINGS_MARKER);
            r.append("\n");
            r.append(line.as_str());
            r.append("\n");
            r
        },
    }
}

/// What `str::to_lowercase` makes of a string.
pub uninterp spec fn lowercased(s: Seq<char>) -> Seq<char>;

/// Relies on str::to_lowercase: the lowercase form of the string under
/// Unicode's case mapping, which depends on the characters alone.
#[verifier::external_body]
fn lowercase_text(s: &str) -> (r: String)
    ensures
        r@ == lowercased(s@),
{
    s.to_lowercase()
}

pub open spec fn is_yes(folded: Seq<char>) -> bool {
    folded == "y"@ || folded == "yes"@
}

/// Whether an answer, already trimmed and lowercased, says yes.
pub fn folded_answer_is_yes(folded: &str) -> (r: bool)
    ensures
        r == is_yes(folded@),
{
    same_text(folded, "y") || same_text(folded, "yes")
}

/// Whether an answer to the step-comment question switches step comments on:
/// `y` or `yes` in any case, with white space around it.
pub fn answer_enables_step_comments(input: &str) -> (r: bool)
    ensures
        r == is_yes(lowercased(trimmed(input@))),
{
    let folded = lowercase_text(trim_text(input));
    folded_answer_is_yes(folded.as_str())
}

/// Whether the text of a script has step comments switched on.
pub fn step_comments_enabled(content: &str) -> (r: bool)
    ensures
        r == step_comments_on(content@),
{
    crate::text::contains_text(content, STEP_COMMENTS_ON)
}

/// Where the settings line stands after an update of the setting.
pub open spec fn new_setting_pos(s: Seq<char>) -> int {
    if contains(s, SETTINGS_MARKER@) {
        if has_setting_line(s) {
            first_setting(s)
        } else {
            marker_line_end(s) + 1
        }
    } else {
        (s.len() + SETTINGS_MARKER@.len() + 2) as int
    }
}

/// The update of the setting rewrites the line that starts at `j`.
pub open spec fn rewrites_setting_at(s: Seq<char>, j: int) -> bool {
    contains(s, SETTINGS_MARKER@) && has_setting_line(s) && j == first_setting(s)
}

proof fn lemma_literals()
    ensures
        "\n"@ == seq!['\n'],
        SETTINGS_MARKER@.len() == 16,
        has_no_newline(SETTINGS_MARKER@),
        has_no_newline(STEP_COMMENTS_ON@),
        has_no_newline(STEP_COMMENTS_OFF@),
        has_no_newline(SETTING_KEY@),
        STEP_COMMENTS_ON@ == SETTING_KEY@ + "true"@,
        STEP_COMMENTS_OFF@ == SETTING_KEY@ + "false"@,
        SETTING_KEY@.len() == 25,
        STEP_COMMENTS_ON@.len() == 29,
        STEP_COMMENTS_OFF@.len() == 30,
        STEP_COMMENTS_ON@[25] == 't',
        STEP_COMMENTS_OFF@[25] == 'f',
        forall|o: int| 0 <= o < 30 ==> STEP_COMMENTS_OFF@[o] != 'C',
        forall|o: int| 0 <= o < 29 ==> STEP_COMMENTS_ON@[o] != 'C',
        SETTINGS_MARKER@[0] == 'C',
        forall|o: int| 1 <= o <= 5 ==> STEP_COMMENTS_OFF@[o] != '#',
        forall|o: int| 1 <= o <= 4 ==> STEP_COMMENTS_ON@[o] != '#',
        STEP_COMMENTS_ON@[0] == '#',
        STEP_COMMENTS_OFF@[1] != '#',
{
    reveal_strlit("\n");
    reveal_strlit("CaptureSettings:");
    reveal_strlit("# - enable_step_comments=true");
    reveal_strlit("# - enable_step_comments=false");
    reveal_strlit("# - enable_step_comments=");
    reveal_strlit("true");
    reveal_strlit("false");
    assert(STEP_COMMENTS_ON@ =~= SETTING_KEY@ + "true"@);
    assert(STEP_COMMENTS_OFF@ =~= SETTING_KEY@ + "false"@);
}

/// No settings line occurs in a marker, and none in a line break.
proof fn lemma_no_occurrence_in_short(p: Seq<char>, j: int)
    requires
        p.len() > SETTINGS_MARKER@.len(),
    ensures
        !occurs_at(SETTINGS_MARKER@, p, j),
        !occurs_at("\n"@, p, j),
{
    lemma_literals();
}

/// A settings line has one value.
proof fn lemma_setting_value_unique(s: Seq<char>, i: int)
    ensures
        !(setting_at(s, i, true) && setting_at(s, i, false)),
{
    lemma_literals();
    if setting_at(s, i, true) && setting_at(s, i, false) {
        assert(s.subrange(i, i + 29)[25] == s.subrange(i, i + 30)[25]);
    }
}

proof fn lemma_first_setting_exists(s: Seq<char>, k: int)
    requires
        any_setting_at(s, k),
    ensures
        first_setting_at(s, first_setting(s)),
    decreases k,
{
    if exists|j: int| 0 <= j < k && any_setting_at(s, j) {
        let j = choose|j: int| 0 <= j < k && any_setting_at(s, j);
        lemma_first_setting_exists(s, j);
    } else {
        assert(first_setting_at(s, k));
    }
}

proof fn lemma_first_marker_exists(s: Seq<char>)
    requires
        contains(s, SETTINGS_MARKER@),
    ensures
        first_occurrence(s, SETTINGS_MARKER@, first_marker(s)),
{
    let k = choose|k: int| occurs_at(s, SETTINGS_MARKER@, k);
    crate::text::lemma_first_occurrence_exists(s, SETTINGS_MARKER@, k);
}

/// An update of the setting puts the new settings line, as a whole line, at
/// `new_setting_pos`; any other text without a line break that occurs after the
/// update occurred before it, away from the line that was rewritten.
proof fn lemma_update_shape(s: Seq<char>, v: bool, p: Seq<char>, j: int)
    requires
        has_no_newline(p),
        p.len() > SETTINGS_MARKER@.len(),
    ensures
        setting_at(with_step_comments(s, v), new_setting_pos(s), v),
        occurs_at(with_step_comments(s, v), p, j) ==> {
            ||| occurs_at(setting_line(v), p, j - new_setting_pos(s))
            ||| exists|js: int| occurs_at(s, p, js) && !rewrites_setting_at(s, js)
        },
{
    lemma_literals();
    let r = with_step_comments(s, v);
    let line = setting_line(v);
    let nl = "\n"@;
    let pos = new_setting_pos(s);
    if contains(s, SETTINGS_MARKER@) {
        if has_setting_line(s) {
            let k0 = choose|k: int| any_setting_at(s, k);
            lemma_first_setting_exists(s, k0);
            let i = first_setting(s);
            let len = setting_line(setting_at(s, i, true)).len() as int;
            let pre = s.subrange(0, i);
            let post = s.subrange(i + len, s.len() as int);
            assert(r == pre + line + post);
            assert(r.subrange(i, i + line.len()) =~= line);
            if i + len < s.len() {
                assert(r[i + line.len()] == post[0]);
            }
            if i > 0 {
                assert(r[i - 1] == pre[i - 1]);
            }
            assert(setting_at(r, pos, v));
            if occurs_at(r, p, j) {
                assert(r =~= (pre + line) + post);
                lemma_occurs_in_parts(pre + line, post, p, j);
                if occurs_at(post, p, j - i - line.len()) {
                    lemma_occurs_in_subrange(s, i + len, s.len() as int, p, j - i - line.len());
                    assert(!rewrites_setting_at(s, j - line.len() + len));
                } else {
                    if i > 0 {
                        assert(pre.last() == s[i - 1]);
                    }
                    lemma_occurs_in_parts(pre, line, p, j);
                    if occurs_at(pre, p, j) {
                        lemma_occurs_in_subrange(s, 0, i, p, j);
                        assert(!rewrites_setting_at(s, j));
                    }
                }
            }
        } else {
            lemma_first_marker_exists(s);
            let e = marker_line_end(s);
            lemma_line_end_from(s, first_marker(s) + 16);
            let n = s.len() as int;
            if e < n {
                let pre = s.subrange(0, e + 1);
                let post = s.subrange(e + 1, n);
                assert(r == pre + line + nl + post);
                assert(r.subrange(e + 1, e + 1 + line.len()) =~= line);
                assert(r[e] == s[e]);
                assert(r[e + 1 + line.len()] == nl[0]);
                assert(setting_at(r, pos, v));
                if occurs_at(r, p, j) {
                    assert(r =~= (pre + line) + (nl + post));
                    assert(pre.last() == s[e]);
                    lemma_occurs_in_parts(pre + line, nl + post, p, j);
                    if occurs_at(nl + post, p, j - (e + 1 + line.len())) {
                        lemma_occurs_in_parts(nl, post, p, j - (e + 1 + line.len()));
                        lemma_no_occurrence_in_short(p, j - (e + 1 + line.len()));
                        lemma_occurs_in_subrange(s, e + 1, n, p, j - (e + 2 + line.len()));
                        assert(!rewrites_setting_at(s, j - (e + 2 + line.len()) + e + 1));
                    } else {
                        lemma_occurs_in_parts(pre, line, p, j);
                        if occurs_at(pre, p, j) {
                            lemma_occurs_in_subrange(s, 0, e + 1, p, j);
                            assert(!rewrites_setting_at(s, j));
                        }
                    }
                }
            } else {
                assert(r == s + nl + line);
                assert(r.subrange(n + 1, n + 1 + line.len()) =~= line);
                assert(r[n] == nl[0]);
                assert(setting_at(r, pos, v));
                if occurs_at(r, p, j) {
                    assert(r =~= (s + nl) + line);
                    lemma_occurs_in_parts(s + nl, line, p, j);
                    if occurs_at(s + nl, p, j) {
                        lemma_occurs_in_parts(s, nl, p, j);
                        lemma_no_occurrence_in_short(p, j - n);
                        assert(!rewrites_setting_at(s, j));
                    }
                }
            }
        }
    } else {
        let m = SETTINGS_MARKER@;
        let n = s.len() as int;
        assert(r == s + nl + m + nl + line + nl);
        assert(r.subrange(n + 18, n + 18 + line.len()) =~= line);
        assert(r[n + 17] == nl[0]);
        assert(r[n + 18 + line.len()] == nl[0]);
        assert(setting_at(r, pos, v));
        if occurs_at(r, p, j) {
            assert(r =~= ((((s + nl) + m) + nl) + line) + nl);
            lemma_occurs_in_parts((((s + nl) + m) + nl) + line, nl, p, j);
            lemma_no_occurrence_in_short(p, j - (n + 18 + line.len()));
            lemma_occurs_in_parts(((s + nl) + m) + nl, line, p, j);
            if occurs_at(((s + nl) + m) + nl, p, j) {
                lemma_occurs_in_parts((s + nl) + m, nl, p, j);
                lemma_no_occurrence_in_short(p, j - (n + 17));
                lemma_occurs_in_parts(s + nl, m, p, j);
                lemma_no_occurrence_in_short(p, j - (n + 1));
                lemma_occurs_in_parts(s, nl, p, j);
                lemma_no_occurrence_in_short(p, j - n);
                assert(!rewrites_setting_at(s, j));
            }
        }
    }
}

/// Setting step comments and reading the setting back from the text gives the
/// value just set. Switching them off asks that every switched-on line of the
/// text be the one that the update rewrites: any other would stay.
pub proof fn lemma_step_comments_round_trip(s: Seq<char>, v: bool)
    requires
        !v ==> forall|j: int| occurs_at(s, STEP_COMMENTS_ON@, j) ==> rewrites_setting_at(s, j),
    ensures
        step_comments_on(with_step_comments(s, v)) == v,
{
    lemma_literals();
    let r = with_step_comments(s, v);
    let on = STEP_COMMENTS_ON@;
    let off = STEP_COMMENTS_OFF@;
    let pos = new_setting_pos(s);
    lemma_update_shape(s, v, on, 0);
    if v {
        assert(occurs_at(r, on, pos));
    } else {
        assert forall|j: int| !occurs_at(r, on, j) by {
            lemma_update_shape(s, v, on, j);
            if occurs_at(r, on, j) {
                let o = j - pos;
                if occurs_at(off, on, o) {
                    assert(off.subrange(o, o + 29)[0] == on[0]);
                    assert(off.subrange(o, o + 29)[25] == on[25]);
                }
            }
        }
    }
}

/// The settings key stands in `s` only at the start of a settings line, there
/// is at most one settings line, and where there is one the marker is present.
pub open spec fn single_settings_text(s: Seq<char>) -> bool {
    &&& forall|j: int| occurs_at(s, SETTING_KEY@, j) ==> any_setting_at(s, j)
    &&& forall|i: int, j: int| any_setting_at(s, i) && any_setting_at(s, j) ==> i == j
    &&& has_setting_line(s) ==> contains(s, SETTINGS_MARKER@)
}

proof fn lemma_update_keeps_marker(s: Seq<char>, v: bool)
    ensures
        contains(with_step_comments(s, v), SETTINGS_MARKER@),
{
    lemma_literals();
    let r = with_step_comments(s, v);
    let m = SETTINGS_MARKER@;
    let line = setting_line(v);
    let nl = "\n"@;
    if contains(s, m) {
        lemma_first_marker_exists(s);
        let fm = first_marker(s);
        if has_setting_line(s) {
            let k0 = choose|k: int| any_setting_at(s, k);
            lemma_first_setting_exists(s, k0);
            let i = first_setting(s);
            let old_line = setting_line(setting_at(s, i, true));
            let len = old_line.len() as int;
            let pre = s.subrange(0, i);
            let post = s.subrange(i + len, s.len() as int);
            assert(s.subrange(i, i + len) == old_line);
            assert(s =~= (pre + old_line) + post);
            assert(r == pre + line + post);
            lemma_occurs_in_parts(pre + old_line, post, m, fm);
            if occurs_at(post, m, fm - i - len) {
                lemma_occurs_in_concat(pre + line, post, m, fm - i - len);
                assert(occurs_at(r, m, fm - i - len + (pre + line).len()));
            } else {
                if i > 0 {
                    assert(pre.last() == s[i - 1]);
                }
                lemma_occurs_in_parts(pre, old_line, m, fm);
                if occurs_at(old_line, m, fm - i) {
                    assert(old_line.subrange(fm - i, fm - i + 16)[0] == m[0]);
                }
                lemma_occurs_in_concat(pre, line + post, m, fm);
                assert(r =~= pre + (line + post));
                assert(occurs_at(r, m, fm));
            }
        } else {
            let e = marker_line_end(s);
            lemma_line_end_from(s, fm + 16);
            if e < s.len() {
                let pre = s.subrange(0, e + 1);
                let rest = line + nl + s.subrange(e + 1, s.len() as int);
                assert(pre.subrange(fm, fm + 16) =~= s.subrange(fm, fm + 16));
                lemma_occurs_in_concat(pre, rest, m, fm);
                assert(r =~= pre + rest);
            } else {
                lemma_occurs_in_concat(s, nl + line, m, fm);
                assert(r =~= s + (nl + line));
            }
            assert(occurs_at(r, m, fm));
        }
    } else {
        let n = s.len() as int;
        assert(r.subrange(n + 1, n + 17) =~= m);
        assert(occurs_at(r, m, n + 1));
    }
}

/// On a text that holds at most one settings line, under the marker, and the
/// settings key nowhere else, an update of the setting leaves exactly one
/// settings line, with the value set, and a text of the same kind.
pub proof fn lemma_update_keeps_single_line(s: Seq<char>, v: bool)
    requires
        single_settings_text(s),
    ensures
        single_settings_text(with_step_comments(s, v)),
        setting_at(with_step_comments(s, v), new_setting_pos(s), v),
        forall|j: int| any_setting_at(with_step_comments(s, v), j) ==> j == new_setting_pos(s),
{
    lemma_literals();
    let r = with_step_comments(s, v);
    let key = SETTING_KEY@;
    let line = setting_line(v);
    let pos = new_setting_pos(s);
    assert(key[0] == STEP_COMMENTS_ON@[0]);
    lemma_update_shape(s, v, key, 0);
    assert forall|j: int| occurs_at(r, key, j) implies j == pos by {
        lemma_update_shape(s, v, key, j);
        if occurs_at(line, key, j - pos) {
            let o = j - pos;
            assert(line.subrange(o, o + 25)[0] == key[0]);
            assert(line[o] == '#');
            assert(o == 0);
        } else {
            let js = choose|js: int| occurs_at(s, key, js) && !rewrites_setting_at(s, js);
            assert(any_setting_at(s, js));
            assert(has_setting_line(s));
            lemma_first_setting_exists(s, js);
            assert(any_setting_at(s, first_setting(s)));
            assert(js == first_setting(s));
            assert(false);
        }
    }
    assert forall|j: int| any_setting_at(r, j) implies occurs_at(r, key, j) by {
        if setting_at(r, j, true) {
            assert(r.subrange(j, j + 25) =~= r.subrange(j, j + 29).subrange(0, 25));
            assert(STEP_COMMENTS_ON@.subrange(0, 25) =~= key);
        } else {
            assert(r.subrange(j, j + 25) =~= r.subrange(j, j + 30).subrange(0, 25));
            assert(STEP_COMMENTS_OFF@.subrange(0, 25) =~= key);
        }
    }
    lemma_update_keeps_marker(s, v);
}

/// Switching step comments on and then off leaves exactly one settings line,
/// which says off.
pub proof fn lemma_on_then_off_single_line(s: Seq<char>)
    requires
        single_settings_text(s),
    ensures
        ({
            let r = with_step_comments(with_step_comments(s, true), false);
            exists|i: int|
                setting_at(r, i, false) && forall|j: int| any_setting_at(r, j) ==> j == i
        }),
{
    let once = with_step_comments(s, true);
    lemma_update_keeps_single_line(s, true);
    lemma_update_keeps_single_line(once, false);
    let r = with_step_comments(once, false);
    assert(setting_at(r, new_setting_pos(once), false));
}

} // verus!
