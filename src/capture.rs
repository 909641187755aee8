//! What a bare invocation captures: the script it goes to and the command.

use vstd::prelude::*;

verus! {

/// The script that a command goes to when no name is given.
pub const DEFAULT_SCRIPT: &'static str = "default";

/// The words joined by single spaces.
pub open spec fn joined(words: Seq<Seq<char>>) -> Seq<char>
    decreases words.len(),
{
    if words.len() == 0 {
        Seq::empty()
    } else if words.len() == 1 {
        words[0]
    } else {
        joined(words.drop_last()) + " "@ + words.last()
    }
}

/// The words of `words` from index `from` on, joined by single spaces.
pub fn join_words(words: &Vec<String>, from: usize) -> (r: String)
    requires
        from <= words.len(),
    ensures
        r@ == joined(words.deep_view().skip(from as int)),
{
    let ghost dv = words.deep_view();
    if from == words.len() {
        proof {
            assert(dv.skip(from as int).len() == 0);
        }
        return String::new();
    }
    let mut r = words[from].clone();
    let mut i: usize = from + 1;
    proof {
        assert(dv.subrange(from as int, i as int).len() == 1);
    }
    while i < words.len()
        invariant
            from < i <= words.len(),
            dv == words.deep_view(),
            r@ == joined(dv.subrange(from as int, i as int)),
        decreases words.len() - i,
    {
        proof {
            assert(dv.subrange(from as int, i + 1).drop_last() =~= dv.subrange(
                from as int,
                i as int,
            ));
        }
        r.append(" ");
        r.append(words[i].as_str());
        i += 1;
    }
    proof {
        assert(dv.subrange(from as int, i as int) =~= dv.skip(from as int));
    }
    r
}

/// The script name and the command of a bare invocation: with one word, that
/// word is the command and it goes to the default script; with more, the first
/// names the script and the rest, joined by spaces, is the command; with none,
/// there is nothing to capture.
pub fn plan_capture(words: &Vec<String>) -> (r: Option<(String, String)>)
    ensures
        match r {
            None => words@.len() == 0,
            Some((name, command)) => {
                &&& words@.len() > 0
                &&& words@.len() == 1 ==> name@ == DEFAULT_SCRIPT@ && command@ == words@[0]@
                &&& words@.len() > 1 ==> name@ == words@[0]@ && command@ == joined(
                    words.deep_view().skip(1),
                )
            },
        },
{
    if words.len() == 0 {
        None
    } else if words.len() == 1 {
        Some((String::from_str(DEFAULT_SCRIPT), words[0].clone()))
    } else {
        Some((words[0].clone(), join_words(words, 1)))
    }
}

} // verus!
