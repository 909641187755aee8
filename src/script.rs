//! The script store: file names of scripts, the header block that every
//! script carries, and which directory entries are scripts.

use vstd::prelude::*;

use crate::settings::{
    any_setting_at, has_setting_line, setting_at, single_settings_text, SETTINGS_MARKER,
    SETTING_KEY, STEP_COMMENTS_OFF, STEP_COMMENTS_ON,
};
use crate::text::{contains, ends_with_text, has_no_newline, lemma_occurs_in_parts, occurs_at};

verus! {

/// The header block up to its marker.
pub const HEADER_TOP: &'static str = "\n#!/bin/sh\n#     ___               _                        ___   __   _____ \n#    / __\\ __ _  _ __  | |_  _   _  _ __  ___   / __\\ / /   \\_   \\\n#   / /   / _` || '_ \\ | __|| | | || '__|/ _ \\ / /   / /     / /\\/\n#  / /___| (_| || |_) || |_ | |_| || |  |  __// /___/ /___/\\/ /_  \n#  \\____/ \\__,_|| .__/  \\__| \\__,_||_|   \\___|\\____/\\____/\\____/  \n#               |_| \n#\n";

/// The part of the header block that tells that it is present.
pub const HEADER_MARKER: &'static str = "# Script generated using CaptureCLI";

/// The header block after its marker.
pub const HEADER_BOTTOM: &'static str = " by coderipper\n# Website: https://capturecli.xyz\n#\n# CaptureSettings:\n";

/// The extension of script files, with its dot.
pub const SCRIPT_EXTENSION: &'static str = ".sh";

pub open spec fn header_text() -> Seq<char> {
    HEADER_TOP@ + HEADER_MARKER@ + HEADER_BOTTOM@
}

/// The header as written into a script: the block and a line break.
pub open spec fn header_block() -> Seq<char> {
    header_text() + "\n"@
}

/// What a script gets appended so that it carries the header: the whole block
/// for a new script (`None`) or one without the marker, nothing otherwise.
pub open spec fn header_addition(existing: Option<Seq<char>>) -> Seq<char> {
    match existing {
        None => header_block(),
        Some(s) => if contains(s, HEADER_MARKER@) {
            Seq::empty()
        } else {
            header_block()
        },
    }
}

/// The text of a script once its header has been ensured.
pub open spec fn with_header(existing: Option<Seq<char>>) -> Seq<char> {
    match existing {
        None => header_addition(existing),
        Some(s) => s + header_addition(existing),
    }
}

pub open spec fn is_script_name(name: Seq<char>) -> bool {
    name.len() > SCRIPT_EXTENSION@.len() && occurs_at(
        name,
        SCRIPT_EXTENSION@,
        name.len() - SCRIPT_EXTENSION@.len(),
    )
}

/// The script names among `names`, in their order.
pub open spec fn script_names(names: Seq<Seq<char>>) -> Seq<Seq<char>>
    decreases names.len(),
{
    if names.len() == 0 {
        Seq::empty()
    } else {
        let rest = script_names(names.drop_last());
        if is_script_name(names.last()) {
            rest.push(names.last())
        } else {
            rest
        }
    }
}

/// Ensuring the header twice leaves a script as ensuring it once does: the
/// header is then present, and the second time adds nothing.
pub proof fn lemma_ensure_header_idempotent(existing: Option<Seq<char>>)
    ensures
        contains(with_header(existing), HEADER_MARKER@),
        header_addition(Some(with_header(existing))) == Seq::<char>::empty(),
        with_header(Some(with_header(existing))) == with_header(existing),
{
    reveal_strlit("\n");
    let once = with_header(existing);
    let before = match existing {
        Some(s) => s,
        None => Seq::empty(),
    };
    if existing is Some && contains(before, HEADER_MARKER@) {
        assert(once =~= before);
    } else {
        let at = (before.len() + HEADER_TOP@.len()) as int;
        assert(once =~= before + HEADER_TOP@ + HEADER_MARKER@ + HEADER_BOTTOM@ + "\n"@);
        assert(once.subrange(at, at + HEADER_MARKER@.len()) =~= HEADER_MARKER@);
        assert(occurs_at(once, HEADER_MARKER@, at));
    }
    assert(once + Seq::<char>::empty() =~= once);
}

/// The header marker occurs at most once in `s`.
pub open spec fn marker_at_most_once(s: Seq<char>) -> bool {
    forall|i: int, j: int|
        occurs_at(s, HEADER_MARKER@, i) && occurs_at(s, HEADER_MARKER@, j) ==> i == j
}

proof fn lemma_marker_once_in_header_block()
    ensures
        header_block()[0] == '\n',
        has_no_newline(HEADER_MARKER@),
        forall|j: int| occurs_at(header_block(), HEADER_MARKER@, j) ==> j == HEADER_TOP@.len(),
{
    reveal_strlit("\n");
    reveal_strlit("# Script generated using CaptureCLI");
    reveal_strlit("\n#!/bin/sh\n#     ___               _                        ___   __   _____ \n#    / __\\ __ _  _ __  | |_  _   _  _ __  ___   / __\\ / /   \\_   \\\n#   / /   / _` || '_ \\ | __|| | | || '__|/ _ \\ / /   / /     / /\\/\n#  / /___| (_| || |_) || |_ | |_| || |  |  __// /___/ /___/\\/ /_  \n#  \\____/ \\__,_|| .__/  \\__| \\__,_||_|   \\___|\\____/\\____/\\____/  \n#               |_| \n#\n");
    reveal_strlit(" by coderipper\n# Website: https://capturecli.xyz\n#\n# CaptureSettings:\n");
    let h = header_block();
    let m = HEADER_MARKER@;
    assert(m[34] == 'I');
    assert forall|o: int| 0 <= o < h.len() && h[o] == 'I' implies o == 403 by {}
    assert(HEADER_TOP@.len() == 369);
    assert forall|j: int| occurs_at(h, m, j) implies j == HEADER_TOP@.len() by {
        assert(h.subrange(j, j + m.len())[34] == h[j + 34]);
    }
}

/// Ensuring the header of a script that held the header marker at most once
/// leaves it there exactly once, and ensuring it again changes nothing.
pub proof fn lemma_header_marker_once(existing: Option<Seq<char>>)
    requires
        existing matches Some(s) ==> marker_at_most_once(s),
    ensures
        contains(with_header(existing), HEADER_MARKER@),
        marker_at_most_once(with_header(existing)),
        with_header(Some(with_header(existing))) == with_header(existing),
{
    lemma_ensure_header_idempotent(existing);
    lemma_marker_once_in_header_block();
    let r = with_header(existing);
    let before = match existing {
        Some(s) => s,
        None => Seq::empty(),
    };
    if !(existing is Some && contains(before, HEADER_MARKER@)) {
        assert(r =~= before + header_block());
        assert forall|j: int| occurs_at(r, HEADER_MARKER@, j) implies j == before.len()
            + HEADER_TOP@.len() by {
            lemma_occurs_in_parts(before, header_block(), HEADER_MARKER@, j);
            if occurs_at(before, HEADER_MARKER@, j) {
                assert(contains(before, HEADER_MARKER@));
            }
        }
    }
}

/// A new script holds no settings line, the marker of the settings section, and
/// the settings key nowhere: updates of its setting keep one settings line.
pub proof fn lemma_new_script_settings()
    ensures
        single_settings_text(with_header(None)),
        !has_setting_line(with_header(None)),
        contains(with_header(None), SETTINGS_MARKER@),
{
    reveal_strlit("\n");
    reveal_strlit("# Script generated using CaptureCLI");
    reveal_strlit("\n#!/bin/sh\n#     ___               _                        ___   __   _____ \n#    / __\\ __ _  _ __  | |_  _   _  _ __  ___   / __\\ / /   \\_   \\\n#   / /   / _` || '_ \\ | __|| | | || '__|/ _ \\ / /   / /     / /\\/\n#  / /___| (_| || |_) || |_ | |_| || |  |  __// /___/ /___/\\/ /_  \n#  \\____/ \\__,_|| .__/  \\__| \\__,_||_|   \\___|\\____/\\____/\\____/  \n#               |_| \n#\n");
    reveal_strlit(" by coderipper\n# Website: https://capturecli.xyz\n#\n# CaptureSettings:\n");
    reveal_strlit("# - enable_step_comments=");
    reveal_strlit("CaptureSettings:");
    reveal_strlit("# - enable_step_comments=true");
    reveal_strlit("# - enable_step_comments=false");
    let h = with_header(None);
    let key = SETTING_KEY@;
    assert(key[2] == '-');
    assert forall|o: int| 0 <= o < h.len() implies h[o] != '-' by {}
    assert forall|j: int| !occurs_at(h, key, j) by {
        if occurs_at(h, key, j) {
            assert(h.subrange(j, j + key.len())[2] == h[j + 2]);
        }
    }
    let at = (HEADER_TOP@.len() + HEADER_MARKER@.len() + 53) as int;
    assert(h.subrange(at, at + 16) =~= SETTINGS_MARKER@);
    assert(occurs_at(h, SETTINGS_MARKER@, at));
    assert forall|j: int| !any_setting_at(h, j) by {
        if setting_at(h, j, true) {
            assert(h.subrange(j, j + 29)[2] == STEP_COMMENTS_ON@[2]);
        }
        if setting_at(h, j, false) {
            assert(h.subrange(j, j + 30)[2] == STEP_COMMENTS_OFF@[2]);
        }
    }
}

/// The listing holds exactly the script names among the entries.
pub proof fn lemma_script_names_listed(names: Seq<Seq<char>>, name: Seq<char>)
    ensures
        script_names(names).contains(name) <==> (names.contains(name) && is_script_name(name)),
    decreases names.len(),
{
    if names.len() > 0 {
        let rest = names.drop_last();
        lemma_script_names_listed(rest, name);
        assert(names =~= rest.push(names.last()));
        if rest.contains(name) {
            let k = choose|k: int| 0 <= k < rest.len() && rest[k] == name;
            assert(names[k] == name);
        }
        if names.contains(name) && name != names.last() {
            let k = choose|k: int| 0 <= k < names.len() && names[k] == name;
            assert(rest[k] == name);
        }
        if is_script_name(names.last()) {
            let rest_listed = script_names(rest);
            assert(script_names(names) == rest_listed.push(names.last()));
            if script_names(names).contains(name) && name != names.last() {
                let k = choose|k: int| 0 <= k < rest_listed.len() + 1 && script_names(names)[k] == name;
                assert(rest_listed[k] == name);
            }
            if rest_listed.contains(name) {
                let k = choose|k: int| 0 <= k < rest_listed.len() && rest_listed[k] == name;
                assert(script_names(names)[k] == name);
            }
            assert(script_names(names)[rest_listed.len() as int] == names.last());
        }
        assert(names[names.len() - 1] == names.last());
    }
}

/// After a script called `name` is created among entries `names`, the listing
/// holds the scripts listed before and the new script's file name.
pub proof fn lemma_created_script_listed(names: Seq<Seq<char>>, name: Seq<char>, x: Seq<char>)
    requires
        name.len() > 0,
    ensures
        script_names(names.push(name + SCRIPT_EXTENSION@)).contains(x) <==> (script_names(
            names,
        ).contains(x) || x == name + SCRIPT_EXTENSION@),
{
    reveal_strlit(".sh");
    let file = name + SCRIPT_EXTENSION@;
    let after = names.push(file);
    assert(file.subrange(file.len() - 3, file.len() as int) =~= SCRIPT_EXTENSION@);
    assert(is_script_name(file));
    lemma_script_names_listed(after, x);
    lemma_script_names_listed(names, x);
    assert(after[names.len() as int] == file);
    if names.contains(x) {
        let k = choose|k: int| 0 <= k < names.len() && names[k] == x;
        assert(after[k] == x);
    }
    if after.contains(x) && x != file {
        let k = choose|k: int| 0 <= k < after.len() && after[k] == x;
        assert(names[k] == x);
    }
}

/// The header block.
pub fn script_header() -> (r: String)
    ensures
        r@ == header_text(),
{
    let mut r = String::from_str(HEADER_TOP);
    r.append(HEADER_MARKER);
    r.append(HEADER_BOTTOM);
    r
}

/// What to append to a script so that it carries the header; `existing` is its
/// text, `None` where the file does not exist yet.
pub fn header_to_add(existing: Option<&str>) -> (r: String)
    ensures
        r@ == header_addition(
            match existing {
                Some(s) => Some(s@),
                None => None,
            },
        ),
{
    match existing {
        Some(s) => {
            if crate::text::contains_text(s, HEADER_MARKER) {
                return String::new();
            }
        },
        None => {},
    }
    let mut r = script_header();
    r.append("\n");
    r
}

/// The file name of the script called `name`.
pub fn script_file_name(name: &str) -> (r: String)
    ensures
        r@ == name@ + SCRIPT_EXTENSION@,
{
    let mut r = String::from_str(name);
    r.append(SCRIPT_EXTENSION);
    r
}

/// Whether a file name has the script extension after a non-empty stem.
pub fn is_script_file(name: &str) -> (r: bool)
    ensures
        r == is_script_name(name@),
{
    proof {
        reveal_strlit(".sh");
    }
    let len = name.unicode_len();
    len > 3 && ends_with_text(name, SCRIPT_EXTENSION)
}

/// The names of script files among the names of a directory's entries.
pub fn script_files(names: &Vec<String>) -> (r: Vec<String>)
    ensures
        r.deep_view() == script_names(names.deep_view()),
{
    let mut r: Vec<String> = Vec::new();
    let mut i: usize = 0;
    while i < names.len()
        invariant
            i <= names.len(),
            r.deep_view() == script_names(names.deep_view().take(i as int)),
        decreases names.len() - i,
    {
        proof {
            assert(names.deep_view().take(i + 1).drop_last() =~= names.deep_view().take(i as int));
        }
        if is_script_file(names[i].as_str()) {
            r.push(names[i].clone());
            proof {
                assert(r.deep_view() =~= script_names(names.deep_view().take(i as int)).push(
                    names.deep_view()[i as int],
                ));
            }
        }
        i += 1;
    }
    proof {
        assert(names.deep_view().take(i as int) =~= names.deep_view());
    }
    r
}

} // verus!
