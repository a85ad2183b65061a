//! Cutting a text at the matches of a regular expression.

use crate::text::{opt_text, texts};
use vstd::prelude::*;

verus! {

/// A match: the text before it, back to the end of the previous match, and its
/// capture groups. Group zero is the whole match; a group that took no part in
/// the match is empty.
#[derive(Debug)]
pub struct Cut {
    pub lead: String,
    pub groups: Vec<String>,
}

/// A text cut at every match.
#[derive(Debug)]
pub struct Cuts {
    pub cuts: Vec<Cut>,
    /// The text behind the last match.
    pub tail: String,
}

impl View for Cut {
    type V = (Seq<char>, Seq<Seq<char>>);

    open spec fn view(&self) -> (Seq<char>, Seq<Seq<char>>) {
        (self.lead@, texts(self.groups@))
    }
}

impl View for Cuts {
    type V = (Seq<(Seq<char>, Seq<Seq<char>>)>, Seq<char>);

    open spec fn view(&self) -> (Seq<(Seq<char>, Seq<Seq<char>>)>, Seq<char>) {
        (Seq::new(self.cuts@.len(), |i: int| self.cuts@[i]@), self.tail@)
    }
}

pub open spec fn cuts_view(cuts: Option<Cuts>) -> Option<
    (Seq<(Seq<char>, Seq<Seq<char>>)>, Seq<char>),
> {
    match cuts {
        Some(c) => Some(c@),
        None => None,
    }
}

/// A capture group; empty when the pattern has no such group.
pub open spec fn group(groups: Seq<Seq<char>>, i: int) -> Seq<char> {
    if 0 <= i < groups.len() { groups[i] } else { seq![] }
}

/// The text that was cut.
pub open spec fn reassembled(cuts: Seq<(Seq<char>, Seq<Seq<char>>)>) -> Seq<char>
    decreases cuts.len(),
{
    if cuts.len() == 0 {
        seq![]
    } else {
        reassembled(cuts.drop_last()) + cuts.last().0 + group(cuts.last().1, 0)
    }
}

/// The leftmost-first, non-overlapping matches of `pattern` in `text`, by the
/// rules of the `regex` crate; `None` when the pattern is not valid.
pub uninterp spec fn regex_cuts(pattern: Seq<char>, text: Seq<char>) -> Option<
    (Seq<(Seq<char>, Seq<Seq<char>>)>, Seq<char>),
>;

/// Runs `regex::Regex::captures_iter` with the given pattern.
///
/// Taken on trust: the matches depend on the pattern and the text alone, and
/// the pieces between and inside the matches, put together, are the text.
#[verifier::external_body]
pub(crate) fn cut_text(pattern: &str, text: &str) -> (r: Option<Cuts>)
    ensures
        cuts_view(r) == regex_cuts(pattern@, text@),
        r matches Some(c) ==> reassembled(c@.0) + c@.1 == text@,
{
    let re = regex::Regex::new(pattern).ok()?;
    let mut cuts = Vec::new();
    let mut end: usize = 0;
    for caps in re.captures_iter(text) {
        let whole = caps.get_match();
        let groups = caps.iter().map(|g| g.map_or("", |m| m.as_str()).to_owned()).collect();
        cuts.push(Cut { lead: text[end..whole.start()].to_owned(), groups });
        end = whole.end();
    }
    Some(Cuts { cuts, tail: text[end..].to_owned() })
}

impl Cut {
    /// A capture group; empty when the pattern has no such group.
    pub fn group(&self, i: usize) -> (r: &str)
        ensures
            r@ == group(self@.1, i as int),
    {
        if i < self.groups.len() {
            self.groups[i].as_str()
        } else {
            proof {
                reveal_strlit("");
                assert(""@ =~= seq![]);
            }
            ""
        }
    }
}

/// Group one of the first match.
pub open spec fn first_capture(
    cuts: Option<(Seq<(Seq<char>, Seq<Seq<char>>)>, Seq<char>)>,
) -> Option<Seq<char>> {
    match cuts {
        Some(c) => if c.0.len() > 0 { Some(group(c.0[0].1, 1)) } else { None },
        None => None,
    }
}

/// Group one of the first match of `pattern`.
pub fn capture(pattern: &str, text: &str) -> (r: Option<String>)
    ensures
        opt_text(r) == first_capture(regex_cuts(pattern@, text@)),
{
    match cut_text(pattern, text) {
        Some(c) => {
            if c.cuts.len() > 0 {
                assert(c@.0[0] == c.cuts@[0]@);
                Some(c.cuts[0].group(1).to_owned())
            } else {
                None
            }
        },
        None => None,
    }
}

} // verus!
