//! Chat entries: a received (or locally sent) chat message lifted with its
//! tags and prefix, and its rendered `author: text` line.

use unicode_segmentation::UnicodeSegmentation;
use vstd::prelude::*;
use vstd::string::*;

use crate::parse::opt_str_view;
use crate::parse::Prefix;
use crate::parse::Tags;

verus! {

/// How many extended grapheme clusters a string holds; a function of its
/// characters alone.
pub uninterp spec fn grapheme_count_of(s: Seq<char>) -> nat;

/// Relies on unicode_segmentation::UnicodeSegmentation::graphemes (extended
/// mode), whose clusters depend on the string's characters alone; counting
/// them gives their number.
#[verifier::external_body]
fn grapheme_count(s: &str) -> (n: usize)
    ensures
        n == grapheme_count_of(s@),
{
    s.graphemes(true).count()
}

/// The author shown for an entry: the `display-name` tag when present, else
/// the prefix's user, else the channel name.
pub open spec fn spec_author(
    tags: Map<Seq<char>, Seq<char>>,
    user: Option<Seq<char>>,
    channel: Seq<char>,
) -> Seq<char> {
    if tags.contains_key("display-name"@) {
        tags["display-name"@]
    } else {
        match user {
            Some(u) => u,
            None => channel,
        }
    }
}

/// One chat entry of the scrollback log, never mutated once appended.
#[derive(Debug)]
pub struct Privmsg {
    pub tags: Tags,
    pub prefix: Prefix,
    pub channel: String,
    pub message: String,
}

impl Privmsg {
    /// The tag block must be well formed so that lookups are meaningful.
    pub open spec fn wf(&self) -> bool {
        self.tags.wf()
    }

    /// The rendered `author: text` line of this entry.
    pub open spec fn spec_line(&self) -> Seq<char> {
        spec_author(self.tags@, opt_str_view(self.prefix.user), self.channel@) + ": "@
            + self.message@
    }

    /// Renders the `author: text` line.
    pub fn message_line(&self) -> (r: String)
        requires
            self.wf(),
        ensures
            r@ == self.spec_line(),
    {
        let author: &String = match self.tags.get("display-name") {
            Some(v) => v,
            None => match &self.prefix.user {
                Some(u) => u,
                None => &self.channel,
            },
        };
        let mut line = author.clone();
        line.append(": ");
        line.append(self.message.as_str());
        line
    }

    /// The rendered line's length in grapheme clusters.
    pub fn message_line_len(&self) -> (n: usize)
        requires
            self.wf(),
        ensures
            n == grapheme_count_of(self.spec_line()),
    {
        let line = self.message_line();
        grapheme_count(line.as_str())
    }
}

} // verus!
