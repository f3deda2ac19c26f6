//! Wire-protocol message parser: raw line to structured event.
//!
//! A protocol line is `[@tags ][:prefix ]command`. Parsing walks the line
//! left to right over a cursor offset (a character index). Malformed input
//! yields `None`; it never panics.

use vstd::prelude::*;
use vstd::string::*;

verus! {

/// First index `i >= from` with `s[i] == c`, if any.
pub open spec fn find_from(s: Seq<char>, from: int, c: char) -> Option<int>
    decreases s.len() - from,
{
    if from < 0 || from >= s.len() {
        None::<int>
    } else if s[from] == c {
        Some(from)
    } else {
        find_from(s, from + 1, c)
    }
}

/// What `find_from` returns: the first occurrence of `c` at or after `from`.
pub proof fn lemma_find_from(s: Seq<char>, from: int, c: char)
    requires
        0 <= from <= s.len(),
    ensures
        match find_from(s, from, c) {
            Some(i) => from <= i < s.len() && s[i] == c && (forall|j: int|
                from <= j < i ==> s[j] != c),
            None => forall|j: int| from <= j < s.len() ==> s[j] != c,
        },
    decreases s.len() - from,
{
    if from < s.len() && s[from] != c {
        lemma_find_from(s, from + 1, c);
    }
}

/// `find_from` returns `Some(i)` exactly when `i` is the first occurrence.
pub proof fn lemma_find_from_some(s: Seq<char>, from: int, i: int, c: char)
    requires
        0 <= from <= i < s.len(),
        s[i] == c,
        forall|j: int| from <= j < i ==> s[j] != c,
    ensures
        find_from(s, from, c) == Some(i),
    decreases i - from,
{
    if from < i {
        lemma_find_from_some(s, from + 1, i, c);
    }
}

/// `find_from` returns `None` when no occurrence exists at or after `from`.
pub proof fn lemma_find_from_none(s: Seq<char>, from: int, c: char)
    requires
        0 <= from <= s.len(),
        forall|j: int| from <= j < s.len() ==> s[j] != c,
    ensures
        find_from(s, from, c) is None,
    decreases s.len() - from,
{
    if from < s.len() {
        lemma_find_from_none(s, from + 1, c);
    }
}

/// Searching inside the segment `s[a..b]` agrees with searching `s` itself,
/// as long as the hit (if any) lands before `b`.
pub proof fn lemma_find_in_segment(s: Seq<char>, a: int, b: int, from: int, c: char)
    requires
        0 <= a,
        0 <= from,
        a + from <= b <= s.len(),
    ensures
        ({
            let sub = s.subrange(a, b);
            match find_from(s, a + from, c) {
                Some(i) => (i < b ==> find_from(sub, from, c) == Some(i - a)) && (i >= b
                    ==> find_from(sub, from, c) is None),
                None => find_from(sub, from, c) is None,
            }
        }),
{
    let sub = s.subrange(a, b);
    lemma_find_from(s, a + from, c);
    match find_from(s, a + from, c) {
        Some(i) => {
            if i < b {
                assert(sub[i - a] == c);
                assert(forall|j: int| from <= j < i - a ==> sub[j] != c) by {
                    assert(forall|j: int| from <= j < i - a ==> sub[j] == s[a + j]);
                }
                lemma_find_from_some(sub, from, i - a, c);
            } else {
                assert(forall|j: int| from <= j < sub.len() ==> sub[j] != c) by {
                    assert(forall|j: int| from <= j < sub.len() ==> sub[j] == s[a + j]);
                }
                lemma_find_from_none(sub, from, c);
            }
        },
        None => {
            assert(forall|j: int| from <= j < sub.len() ==> sub[j] != c) by {
                assert(forall|j: int| from <= j < sub.len() ==> sub[j] == s[a + j]);
            }
            lemma_find_from_none(sub, from, c);
        },
    }
}

/// First index `i >= from` with `s[i] == c`, as executable code.
fn find_char_from(s: &str, from: usize, c: char) -> (r: Option<usize>)
    requires
        from <= s@.len(),
    ensures
        match r {
            Some(i) => find_from(s@, from as int, c) == Some(i as int),
            None => find_from(s@, from as int, c) is None,
        },
{
    let n = s.unicode_len();
    let mut i = from;
    while i < n
        invariant
            from <= i <= n,
            n == s@.len(),
            find_from(s@, from as int, c) == find_from(s@, i as int, c),
        decreases n - i,
    {
        if s.get_char(i) == c {
            return Some(i);
        }
        i = i + 1;
    }
    None
}

/// The mapping that a list of key/value pairs denotes; a later pair with the
/// same key overrides an earlier one.
pub open spec fn pairs_map(ps: Seq<(String, String)>) -> Map<Seq<char>, Seq<char>>
    decreases ps.len(),
{
    if ps.len() == 0 {
        Map::empty()
    } else {
        pairs_map(ps.drop_last()).insert(ps.last().0@, ps.last().1@)
    }
}

/// The tag block's mapping from tag name to tag value; keys are unique.
#[derive(Debug)]
pub struct Tags(Vec<(String, String)>);

impl View for Tags {
    type V = Map<Seq<char>, Seq<char>>;

    closed spec fn view(&self) -> Map<Seq<char>, Seq<char>> {
        pairs_map(self.0@)
    }
}

pub proof fn lemma_pairs_map_membership(ps: Seq<(String, String)>, k: Seq<char>)
    ensures
        pairs_map(ps).contains_key(k) <==> exists|i: int| 0 <= i < ps.len() && ps[i].0@ == k,
    decreases ps.len(),
{
    if ps.len() > 0 {
        lemma_pairs_map_membership(ps.drop_last(), k);
        if pairs_map(ps).contains_key(k) && ps.last().0@ != k {
            let i = choose|i: int| 0 <= i < ps.drop_last().len() && ps.drop_last()[i].0@ == k;
            assert(ps[i].0@ == k);
        }
        if exists|i: int| 0 <= i < ps.len() && ps[i].0@ == k {
            let i = choose|i: int| 0 <= i < ps.len() && ps[i].0@ == k;
            if i < ps.len() - 1 {
                assert(ps.drop_last()[i].0@ == k);
            }
        }
    }
}

pub proof fn lemma_pairs_map_get(ps: Seq<(String, String)>, i: int)
    requires
        0 <= i < ps.len(),
        forall|x: int, y: int| 0 <= x < y < ps.len() ==> ps[x].0@ != ps[y].0@,
    ensures
        pairs_map(ps).contains_key(ps[i].0@),
        pairs_map(ps)[ps[i].0@] == ps[i].1@,
    decreases ps.len(),
{
    if i < ps.len() - 1 {
        lemma_pairs_map_get(ps.drop_last(), i);
        assert(ps.drop_last()[i] == ps[i]);
    }
}

impl Tags {
    /// Keys are pairwise distinct, so a scan finds the key of the mapping.
    pub closed spec fn wf(&self) -> bool {
        forall|x: int, y: int| 0 <= x < y < self.0@.len() ==> self.0@[x].0@ != self.0@[y].0@
    }

    /// The empty tag block.
    pub fn new() -> (t: Tags)
        ensures
            t@ == Map::<Seq<char>, Seq<char>>::empty(),
            t.wf(),
    {
        Tags(Vec::new())
    }

    /// Looks a tag name up in the mapping.
    pub fn get(&self, tag: &str) -> (r: Option<&String>)
        requires
            self.wf(),
        ensures
            match r {
                Some(v) => self@.contains_key(tag@) && v@ == self@[tag@],
                None => !self@.contains_key(tag@),
            },
    {
        let key = String::from_str(tag);
        let n = self.0.len();
        let mut i: usize = 0;
        while i < n
            invariant
                0 <= i <= n,
                n == self.0@.len(),
                key@ == tag@,
                self.wf(),
                forall|j: int| 0 <= j < i ==> self.0@[j].0@ != tag@,
            decreases n - i,
        {
            if self.0[i].0 == key {
                proof {
                    lemma_pairs_map_get(self.0@, i as int);
                }
                return Some(&self.0[i].1);
            }
            i = i + 1;
        }
        proof {
            lemma_pairs_map_membership(self.0@, tag@);
        }
        None
    }

    /// Whether the pairs behind this block have pairwise distinct keys.
    /// True of every block the parser builds; a value that crossed an
    /// unverified boundary can be re-checked with this.
    pub fn is_wf(&self) -> (b: bool)
        ensures
            b == self.wf(),
    {
        let n = self.0.len();
        let mut i: usize = 0;
        while i < n
            invariant
                0 <= i <= n,
                n == self.0@.len(),
                forall|x: int, y: int| 0 <= x < y < self.0@.len() && x < i ==> self.0@[x].0@
                    != self.0@[y].0@,
            decreases n - i,
        {
            let mut j: usize = i + 1;
            while j < n
                invariant
                    i < j <= n,
                    i < n,
                    n == self.0@.len(),
                    forall|y: int| i < y < j ==> self.0@[i as int].0@ != self.0@[y].0@,
                decreases n - j,
            {
                if self.0[i].0 == self.0[j].0 {
                    return false;
                }
                j = j + 1;
            }
            i = i + 1;
        }
        true
    }

    /// Binds `key` to `value`, overriding any earlier binding of `key`.
    fn insert_pair(&mut self, key: String, value: String)
        requires
            old(self).wf(),
        ensures
            final(self).wf(),
            final(self)@ == old(self)@.insert(key@, value@),
    {
        let n = self.0.len();
        let mut i: usize = 0;
        while i < n
            invariant
                0 <= i <= n,
                n == self.0@.len(),
                self == old(self),
                self.wf(),
                forall|j: int| 0 <= j < i ==> self.0@[j].0@ != key@,
            decreases n - i,
        {
            if self.0[i].0 == key {
                proof {
                    lemma_pairs_map_set(self.0@, i as int, key, value);
                }
                self.0[i] = (key, value);
                return ;
            }
            i = i + 1;
        }
        proof {
            let ps = self.0@;
            assert(ps.push((key, value)).drop_last() =~= ps);
        }
        self.0.push((key, value));
    }

    /// A copy of the tag block with the same mapping.
    pub fn duplicate(&self) -> (t: Tags)
        requires
            self.wf(),
        ensures
            t.wf(),
            t@ == self@,
    {
        let mut out: Vec<(String, String)> = Vec::new();
        let n = self.0.len();
        let mut i: usize = 0;
        while i < n
            invariant
                0 <= i <= n,
                n == self.0@.len(),
                self.wf(),
                out@.len() == i,
                forall|j: int| 0 <= j < i ==> out@[j].0@ == self.0@[j].0@ && out@[j].1@
                    == self.0@[j].1@,
            decreases n - i,
        {
            let k = self.0[i].0.clone();
            let v = self.0[i].1.clone();
            out.push((k, v));
            i = i + 1;
        }
        proof {
            lemma_pairs_map_congruence(out@, self.0@);
        }
        Tags(out)
    }
}

/// Splits one `key=value` tag piece at its first `=`; a piece without `=`
/// is malformed.
pub open spec fn split_tag(piece: Seq<char>) -> Option<(Seq<char>, Seq<char>)> {
    match find_from(piece, 0, '=') {
        Some(i) => Some((piece.subrange(0, i), piece.subrange(i + 1, piece.len() as int))),
        None => None,
    }
}

/// Folds the `;`-separated pieces of a tag segment into `acc`, left to
/// right; any piece without `=` fails the whole segment.
pub open spec fn tags_into(acc: Map<Seq<char>, Seq<char>>, seg: Seq<char>) -> Option<
    Map<Seq<char>, Seq<char>>,
>
    decreases seg.len(),
{
    match find_from(seg, 0, ';') {
        Some(i) => if 0 <= i < seg.len() {
            match split_tag(seg.subrange(0, i)) {
                Some(kv) => tags_into(
                    acc.insert(kv.0, kv.1),
                    seg.subrange(i + 1, seg.len() as int),
                ),
                None => None,
            }
        } else {
            None
        },
        None => match split_tag(seg) {
            Some(kv) => Some(acc.insert(kv.0, kv.1)),
            None => None,
        },
    }
}

/// The tag block at offset `p` of line `s`: present only when the line goes
/// on with `@` and a space ends the block; yields the mapping and the offset
/// just past the separating space.
pub open spec fn spec_parse_tags(s: Seq<char>, p: int) -> Option<(Map<Seq<char>, Seq<char>>, int)> {
    if 0 <= p < s.len() && s[p] == '@' {
        match find_from(s, p, ' ') {
            Some(sp) => match tags_into(Map::empty(), s.subrange(p + 1, sp)) {
                Some(m) => Some((m, sp + 1)),
                None => None,
            },
            None => None,
        }
    } else {
        None
    }
}

impl Tags {
    /// Parses the optional leading tag block. On success the cursor lands
    /// just past the separating space; on failure it does not move. A tag
    /// piece without `=` fails the whole block.
    pub fn parse(raw_message: &str, pos: &mut usize) -> (r: Option<Tags>)
        requires
            *old(pos) <= raw_message@.len(),
        ensures
            *final(pos) <= raw_message@.len(),
            match r {
                Some(t) => t.wf() && spec_parse_tags(raw_message@, *old(pos) as int) == Some(
                    (t@, *final(pos) as int),
                ),
                None => spec_parse_tags(raw_message@, *old(pos) as int) is None && *final(pos)
                    == *old(pos),
            },
    {
        let ghost s = raw_message@;
        let ghost p0 = *pos as int;
        let n = raw_message.unicode_len();
        if *pos >= n || raw_message.get_char(*pos) != '@' {
            return None;
        }
        let space_index = match find_char_from(raw_message, *pos, ' ') {
            Some(i) => i,
            None => {
                return None;
            },
        };
        proof {
            lemma_find_from(s, p0, ' ');
        }
        let ghost seg = s.subrange(p0 + 1, space_index as int);
        let mut tags = Tags::new();
        let mut cur: usize = *pos + 1;
        loop
            invariant
                p0 + 1 <= cur <= space_index < n == s.len(),
                n == raw_message@.len(),
                s == raw_message@,
                p0 == *old(pos) as int,
                *pos == *old(pos),
                s[p0] == '@',
                tags.wf(),
                seg == s.subrange(p0 + 1, space_index as int),
                find_from(s, p0, ' ') == Some(space_index as int),
                tags_into(Map::<Seq<char>, Seq<char>>::empty(), seg) == tags_into(
                    tags@,
                    s.subrange(cur as int, space_index as int),
                ),
            decreases space_index - cur,
        {
            let ghost rem = s.subrange(cur as int, space_index as int);
            proof {
                lemma_find_from(s, cur as int, ';');
                lemma_find_in_segment(s, cur as int, space_index as int, 0, ';');
            }
            let semi = find_char_from(raw_message, cur, ';');
            let semi_end: usize = match semi {
                Some(i) => if i < space_index {
                    i
                } else {
                    space_index
                },
                None => space_index,
            };
            let ghost piece = s.subrange(cur as int, semi_end as int);
            proof {
                if semi_end < space_index {
                    assert(find_from(rem, 0, ';') == Some(semi_end - cur));
                    assert(rem.subrange(0, semi_end - cur) =~= piece);
                } else {
                    assert(find_from(rem, 0, ';') is None);
                    assert(rem =~= piece);
                }
                lemma_find_in_segment(s, cur as int, semi_end as int, 0, '=');
            }
            let eq = find_char_from(raw_message, cur, '=');
            let eq_idx: usize = match eq {
                Some(i) => if i < semi_end {
                    i
                } else {
                    proof {
                        assert(find_from(piece, 0, '=') is None);
                        assert(tags_into(tags@, rem) is None);
                    }
                    return None;
                },
                None => {
                    proof {
                        assert(find_from(piece, 0, '=') is None);
                        assert(tags_into(tags@, rem) is None);
                    }
                    return None;
                },
            };
            proof {
                lemma_find_from(s, cur as int, '=');
                assert(find_from(piece, 0, '=') == Some(eq_idx - cur));
            }
            let key = raw_message.substring_char(cur, eq_idx).to_owned();
            let value = raw_message.substring_char(eq_idx + 1, semi_end).to_owned();
            proof {
                assert(key@ =~= piece.subrange(0, eq_idx - cur));
                assert(value@ =~= piece.subrange(eq_idx - cur + 1, piece.len() as int));
            }
            let ghost old_tags = tags@;
            tags.insert_pair(key, value);
            if semi_end == space_index {
                proof {
                    assert(tags_into(old_tags, rem) == Some(old_tags.insert(key@, value@)));
                    assert(spec_parse_tags(s, p0) == Some((tags@, space_index + 1 as int)));
                }
                *pos = space_index + 1;
                return Some(tags);
            }
            proof {
                assert(rem.subrange(semi_end - cur + 1, rem.len() as int) =~= s.subrange(
                    semi_end + 1,
                    space_index as int,
                ));
                assert(tags_into(old_tags, rem) == tags_into(
                    tags@,
                    s.subrange(semi_end + 1, space_index as int),
                ));
            }
            cur = semi_end + 1;
        }
    }
}

/// The view of an optional owned string.
pub open spec fn opt_str_view(o: Option<String>) -> Option<Seq<char>> {
    match o {
        Some(x) => Some(x@),
        None => None,
    }
}

/// The prefix at offset `p` of line `s`: present only when the line goes on
/// with `:` and a space ends the span. Within the span, a `!` splits off the
/// nick, and the next `@` splits user from host; without `!` the whole span
/// is the host. Yields `(nick, user, host)` and the offset just past the
/// span's trailing space.
pub open spec fn spec_parse_prefix(s: Seq<char>, p: int) -> Option<
    (Option<Seq<char>>, Option<Seq<char>>, Seq<char>, int),
> {
    if 0 <= p < s.len() && s[p] == ':' {
        match find_from(s, p, ' ') {
            Some(end) => {
                let span = s.subrange(p + 1, end);
                match find_from(span, 0, '!') {
                    Some(b) => match find_from(span, b + 1, '@') {
                        Some(a) => Some(
                            (
                                Some(span.subrange(0, b)),
                                Some(span.subrange(b + 1, a)),
                                span.subrange(a + 1, span.len() as int),
                                end + 1,
                            ),
                        ),
                        None => None,
                    },
                    None => Some((None::<Seq<char>>, None::<Seq<char>>, span, end + 1)),
                }
            },
            None => None,
        }
    } else {
        None
    }
}

/// The origin of a message: `nick` and `user` are present only when the
/// prefix span carries `!` and `@` separators.
#[derive(Debug)]
pub struct Prefix {
    pub nick: Option<String>,
    pub user: Option<String>,
    pub host: String,
}

impl Prefix {
    /// Parses the `:prefix ` span. On success the cursor lands on the first
    /// character after the span's trailing space; on failure it does not
    /// move.
    pub fn parse(raw_message: &str, pos: &mut usize) -> (r: Option<Prefix>)
        requires
            *old(pos) <= raw_message@.len(),
        ensures
            *final(pos) <= raw_message@.len(),
            match r {
                Some(pre) => ({
                    let fp = *final(pos) as int;
                    spec_parse_prefix(raw_message@, *old(pos) as int) == Some(
                        (opt_str_view(pre.nick), opt_str_view(pre.user), pre.host@, fp),
                    )
                }),
                None => spec_parse_prefix(raw_message@, *old(pos) as int) is None && *final(pos)
                    == *old(pos),
            },
    {
        let ghost s = raw_message@;
        let ghost p0 = *pos as int;
        let n = raw_message.unicode_len();
        if *pos >= n || raw_message.get_char(*pos) != ':' {
            return None;
        }
        let end_index = match find_char_from(raw_message, *pos, ' ') {
            Some(i) => i,
            None => {
                return None;
            },
        };
        proof {
            lemma_find_from(s, p0, ' ');
        }
        let ghost span = s.subrange(p0 + 1, end_index as int);
        proof {
            lemma_find_from(s, p0 + 1, '!');
            lemma_find_in_segment(s, p0 + 1, end_index as int, 0, '!');
        }
        let bang = find_char_from(raw_message, *pos + 1, '!');
        let bang_idx: usize = match bang {
            Some(b) => if b < end_index {
                b
            } else {
                end_index
            },
            None => end_index,
        };
        if bang_idx == end_index {
            proof {
                assert(find_from(span, 0, '!') is None);
            }
            let host = raw_message.substring_char(*pos + 1, end_index).to_owned();
            proof {
                assert(host@ =~= span);
            }
            *pos = end_index + 1;
            return Some(Prefix { nick: None, user: None, host });
        }
        let ghost b_rel = bang_idx - (p0 + 1);
        proof {
            assert(find_from(span, 0, '!') == Some(b_rel));
            lemma_find_from(s, bang_idx + 1, '@');
            lemma_find_in_segment(s, p0 + 1, end_index as int, b_rel + 1, '@');
        }
        let at = find_char_from(raw_message, bang_idx + 1, '@');
        let at_idx: usize = match at {
            Some(a) => if a < end_index {
                a
            } else {
                return None;
            },
            None => {
                return None;
            },
        };
        let ghost a_rel = at_idx - (p0 + 1);
        proof {
            assert(find_from(span, b_rel + 1, '@') == Some(a_rel));
        }
        let nick = raw_message.substring_char(*pos + 1, bang_idx).to_owned();
        let user = raw_message.substring_char(bang_idx + 1, at_idx).to_owned();
        let host = raw_message.substring_char(at_idx + 1, end_index).to_owned();
        proof {
            assert(nick@ =~= span.subrange(0, b_rel));
            assert(user@ =~= span.subrange(b_rel + 1, a_rel));
            assert(host@ =~= span.subrange(a_rel + 1, span.len() as int));
        }
        *pos = end_index + 1;
        Some(Prefix { nick: Some(nick), user: Some(user), host })
    }
}

/// `lit` occurs in `s` starting at offset `p`.
pub open spec fn starts_with_from(s: Seq<char>, p: int, lit: Seq<char>) -> bool {
    p + lit.len() <= s.len() && s.subrange(p, p + lit.len()) == lit
}

/// `lit` occurs in `s` starting at offset `p`, as executable code.
fn starts_with_at(s: &str, p: usize, lit: &str) -> (r: bool)
    requires
        p <= s@.len(),
    ensures
        r == starts_with_from(s@, p as int, lit@),
{
    let n = s.unicode_len();
    let ln = lit.unicode_len();
    if ln > n - p {
        return false;
    }
    let ghost sub = s@.subrange(p as int, p + lit@.len());
    let mut i: usize = 0;
    while i < ln
        invariant
            0 <= i <= ln,
            p + ln <= n,
            n == s@.len(),
            ln == lit@.len(),
            sub == s@.subrange(p as int, p + lit@.len()),
            forall|j: int| 0 <= j < i ==> sub[j] == lit@[j],
        decreases ln - i,
    {
        if s.get_char(p + i) != lit.get_char(i) {
            proof {
                assert(sub[i as int] != lit@[i as int]);
            }
            return false;
        }
        proof {
            assert(sub[i as int] == s@[p + i]);
        }
        i = i + 1;
    }
    proof {
        assert(sub =~= lit@);
    }
    true
}

/// The characters of `PRIVMSG ` (chat message command plus its separating
/// space).
pub open spec fn privmsg_lit() -> Seq<char> {
    seq!['P', 'R', 'I', 'V', 'M', 'S', 'G', ' ']
}

/// The characters of `GLOBALUSERSTATE`.
pub open spec fn globaluserstate_lit() -> Seq<char> {
    seq!['G', 'L', 'O', 'B', 'A', 'L', 'U', 'S', 'E', 'R', 'S', 'T', 'A', 'T', 'E']
}

/// The characters of `CAP * ACK`.
pub open spec fn cap_ack_lit() -> Seq<char> {
    seq!['C', 'A', 'P', ' ', '*', ' ', 'A', 'C', 'K']
}

/// The characters of the exact server-ping record.
pub open spec fn ping_lit() -> Seq<char> {
    seq![
        'P',
        'I',
        'N',
        'G',
        ' ',
        ':',
        't',
        'm',
        'i',
        '.',
        't',
        'w',
        'i',
        't',
        'c',
        'h',
        '.',
        't',
        'v',
        '\r',
        '\n',
    ]
}

/// The mathematical shape of a parsed command.
pub enum CommandV {
    Privmsg { channel: Seq<char>, message: Seq<char> },
    GlobalUserState,
    Unknown(Seq<char>),
    CapAck,
    Ping,
}

/// The command at offset `p` of line `s`, matched against the recognized
/// literals in a fixed priority order; anything else is `Unknown` with the
/// remaining text, which is not a parse failure. For a chat message, the
/// channel is the text between the first `#` and the character just before
/// the first `:` (the trailing space), and the message is everything after
/// that `:`.
pub open spec fn spec_parse_command(s: Seq<char>, p: int) -> Option<CommandV> {
    if starts_with_from(s, p, privmsg_lit()) {
        let pm = s.subrange(p + 8, s.len() as int);
        match find_from(pm, 0, '#') {
            Some(cs) => match find_from(pm, 0, ':') {
                Some(ms) => if cs + 2 <= ms {
                    Some(
                        CommandV::Privmsg {
                            channel: pm.subrange(cs + 1, ms - 1),
                            message: pm.subrange(ms + 1, pm.len() as int),
                        },
                    )
                } else {
                    None
                },
                None => None,
            },
            None => None,
        }
    } else if starts_with_from(s, p, globaluserstate_lit()) {
        Some(CommandV::GlobalUserState)
    } else if starts_with_from(s, p, cap_ack_lit()) {
        Some(CommandV::CapAck)
    } else if starts_with_from(s, p, ping_lit()) {
        Some(CommandV::Ping)
    } else {
        Some(CommandV::Unknown(s.subrange(p, s.len() as int)))
    }
}

/// The closed set of commands the client recognizes.
#[derive(Debug)]
pub enum IRCCommand {
    Privmsg { channel: String, message: String },
    GlobalUserState,
    Unknown(String),
    CapAck,
    Ping,
}

/// An executable command denotes a mathematical one.
pub open spec fn command_matches(c: IRCCommand, v: CommandV) -> bool {
    match c {
        IRCCommand::Privmsg { channel, message } => v matches CommandV::Privmsg {
            channel: cv,
            message: mv,
        } && channel@ == cv && message@ == mv,
        IRCCommand::GlobalUserState => v is GlobalUserState,
        IRCCommand::Unknown(t) => v matches CommandV::Unknown(tv) && t@ == tv,
        IRCCommand::CapAck => v is CapAck,
        IRCCommand::Ping => v is Ping,
    }
}

impl IRCCommand {
    /// Parses the command part of a line; the cursor does not move. Only a
    /// malformed chat message fails; unrecognized text parses as `Unknown`.
    pub fn parse(raw_message: &str, pos: &mut usize) -> (r: Option<IRCCommand>)
        requires
            *old(pos) <= raw_message@.len(),
        ensures
            *final(pos) == *old(pos),
            match r {
                Some(c) => match spec_parse_command(raw_message@, *old(pos) as int) {
                    Some(v) => command_matches(c, v),
                    None => false,
                },
                None => spec_parse_command(raw_message@, *old(pos) as int) is None,
            },
    {
        let ghost s = raw_message@;
        let ghost p0 = *pos as int;
        let n = raw_message.unicode_len();
        if starts_with_at(raw_message, *pos, "PRIVMSG ") {
            proof {
                reveal_strlit("PRIVMSG ");
                assert("PRIVMSG "@ =~= privmsg_lit());
            }
            let pm_start = *pos + 8;
            let ghost pm = s.subrange(p0 + 8, s.len() as int);
            proof {
                lemma_find_from(s, pm_start as int, '#');
                lemma_find_in_segment(s, pm_start as int, n as int, 0, '#');
                lemma_find_from(s, pm_start as int, ':');
                lemma_find_in_segment(s, pm_start as int, n as int, 0, ':');
            }
            let cs = match find_char_from(raw_message, pm_start, '#') {
                Some(i) => i,
                None => {
                    return None;
                },
            };
            let ms = match find_char_from(raw_message, pm_start, ':') {
                Some(i) => i,
                None => {
                    return None;
                },
            };
            if cs > ms - 2 {
                return None;
            }
            let channel = raw_message.substring_char(cs + 1, ms - 1).to_owned();
            let message = raw_message.substring_char(ms + 1, n).to_owned();
            proof {
                assert(channel@ =~= pm.subrange(cs - p0 - 8 + 1, ms - p0 - 8 - 1));
                assert(message@ =~= pm.subrange(ms - p0 - 8 + 1, pm.len() as int));
            }
            return Some(IRCCommand::Privmsg { channel, message });
        }
        if starts_with_at(raw_message, *pos, "GLOBALUSERSTATE") {
            proof {
                reveal_strlit("GLOBALUSERSTATE");
                assert("GLOBALUSERSTATE"@ =~= globaluserstate_lit());
            }
            return Some(IRCCommand::GlobalUserState);
        }
        if starts_with_at(raw_message, *pos, "CAP * ACK") {
            proof {
                reveal_strlit("CAP * ACK");
                assert("CAP * ACK"@ =~= cap_ack_lit());
            }
            return Some(IRCCommand::CapAck);
        }
        if starts_with_at(raw_message, *pos, "PING :tmi.twitch.tv\r\n") {
            proof {
                reveal_strlit("PING :tmi.twitch.tv\r\n");
                assert("PING :tmi.twitch.tv\r\n"@ =~= ping_lit());
            }
            return Some(IRCCommand::Ping);
        }
        let tail = raw_message.substring_char(*pos, n).to_owned();
        proof {
            reveal_strlit("PRIVMSG ");
            assert("PRIVMSG "@ =~= privmsg_lit());
            reveal_strlit("GLOBALUSERSTATE");
            assert("GLOBALUSERSTATE"@ =~= globaluserstate_lit());
            reveal_strlit("CAP * ACK");
            assert("CAP * ACK"@ =~= cap_ack_lit());
            reveal_strlit("PING :tmi.twitch.tv\r\n");
            assert("PING :tmi.twitch.tv\r\n"@ =~= ping_lit());
            assert(tail@ =~= s.subrange(p0, s.len() as int));
        }
        Some(IRCCommand::Unknown(tail))
    }
}

/// A structured protocol event: tag block, origin prefix, command.
#[derive(Debug)]
pub struct IRCMessage {
    pub tags: Tags,
    pub prefix: Prefix,
    pub command: IRCCommand,
}

/// A whole line's parse: optional tag block (absent means the empty
/// mapping), then mandatory prefix, then command.
pub open spec fn spec_parse_message(s: Seq<char>) -> Option<
    (Map<Seq<char>, Seq<char>>, (Option<Seq<char>>, Option<Seq<char>>, Seq<char>), CommandV),
> {
    let tp = match spec_parse_tags(s, 0) {
        Some(t) => t,
        None => (Map::<Seq<char>, Seq<char>>::empty(), 0),
    };
    match spec_parse_prefix(s, tp.1) {
        Some(pre) => match spec_parse_command(s, pre.3) {
            Some(cv) => Some((tp.0, (pre.0, pre.1, pre.2), cv)),
            None => None,
        },
        None => None,
    }
}

impl IRCMessage {
    /// Parses one raw protocol line into a structured event; malformed input
    /// yields `None` rather than an error.
    pub fn parse(raw_message: &str) -> (r: Option<IRCMessage>)
        ensures
            match r {
                Some(m) => match spec_parse_message(raw_message@) {
                    Some(t) => m.tags.wf() && m.tags@ == t.0 && opt_str_view(m.prefix.nick)
                        == t.1.0 && opt_str_view(m.prefix.user) == t.1.1 && m.prefix.host@ == t.1.2
                        && command_matches(m.command, t.2),
                    None => false,
                },
                None => spec_parse_message(raw_message@) is None,
            },
    {
        let mut pos: usize = 0;
        let tags = match Tags::parse(raw_message, &mut pos) {
            Some(t) => t,
            None => Tags::new(),
        };
        let prefix = match Prefix::parse(raw_message, &mut pos) {
            Some(p) => p,
            None => {
                return None;
            },
        };
        let command = match IRCCommand::parse(raw_message, &mut pos) {
            Some(c) => c,
            None => {
                return None;
            },
        };
        Some(IRCMessage { tags, prefix, command })
    }
}

/// A line that starts with neither a tag block nor a prefix fails the whole
/// parse.
pub proof fn lemma_parse_rejects_unprefixed(s: Seq<char>)
    requires
        s.len() == 0 || (s[0] != '@' && s[0] != ':'),
    ensures
        spec_parse_message(s) is None,
{
}

/// A tag name may not carry the `=`, `;` or space delimiters.
pub open spec fn tag_key_wf(k: Seq<char>) -> bool {
    forall|i: int| 0 <= i < k.len() ==> k[i] != '=' && k[i] != ';' && k[i] != ' '
}

/// A tag value may not carry the `;` or space delimiters (it may carry `=`).
pub open spec fn tag_val_wf(v: Seq<char>) -> bool {
    forall|i: int| 0 <= i < v.len() ==> v[i] != ';' && v[i] != ' '
}

/// A well-formed, non-empty list of tag pairs.
pub open spec fn tag_pairs_wf(ps: Seq<(Seq<char>, Seq<char>)>) -> bool {
    ps.len() >= 1 && forall|i: int|
        0 <= i < ps.len() ==> tag_key_wf(#[trigger] ps[i].0) && tag_val_wf(ps[i].1)
}

/// One rendered `key=value` piece.
pub open spec fn render_pair(kv: (Seq<char>, Seq<char>)) -> Seq<char> {
    kv.0 + seq!['='] + kv.1
}

/// The `;`-joined rendering of a list of tag pairs.
pub open spec fn render_tag_block(ps: Seq<(Seq<char>, Seq<char>)>) -> Seq<char>
    decreases ps.len(),
{
    if ps.len() == 0 {
        Seq::empty()
    } else if ps.len() == 1 {
        render_pair(ps[0])
    } else {
        render_pair(ps[0]) + seq![';'] + render_tag_block(ps.drop_first())
    }
}

/// Inserting the pairs into `acc`, first to last.
pub open spec fn tags_fold(
    acc: Map<Seq<char>, Seq<char>>,
    ps: Seq<(Seq<char>, Seq<char>)>,
) -> Map<Seq<char>, Seq<char>>
    decreases ps.len(),
{
    if ps.len() == 0 {
        acc
    } else {
        tags_fold(acc.insert(ps[0].0, ps[0].1), ps.drop_first())
    }
}

/// A rendered tag block holds no space.
proof fn lemma_render_block_no_space(ps: Seq<(Seq<char>, Seq<char>)>)
    requires
        tag_pairs_wf(ps),
    ensures
        forall|j: int|
            0 <= j < render_tag_block(ps).len() ==> #[trigger] render_tag_block(ps)[j] != ' ',
    decreases ps.len(),
{
    let block = render_tag_block(ps);
    let rp = render_pair(ps[0]);
    let k = ps[0].0;
    let v = ps[0].1;
    assert(forall|j: int| 0 <= j < rp.len() ==> #[trigger] rp[j] != ' ') by {
        assert forall|j: int| 0 <= j < rp.len() implies rp[j] != ' ' by {
            if j < k.len() {
                assert(rp[j] == k[j]);
            } else if j == k.len() {
                assert(rp[j] == '=');
            } else {
                assert(rp[j] == v[j - k.len() - 1]);
            }
        }
    }
    if ps.len() > 1 {
        let rest = ps.drop_first();
        assert(tag_pairs_wf(rest)) by {
            assert(forall|i: int| 0 <= i < rest.len() ==> rest[i] == ps[i + 1]);
        }
        lemma_render_block_no_space(rest);
        assert forall|j: int| 0 <= j < block.len() implies block[j] != ' ' by {
            if j < rp.len() {
                assert(block[j] == rp[j]);
            } else if j == rp.len() {
                assert(block[j] == ';');
            } else {
                assert(block[j] == render_tag_block(rest)[j - rp.len() - 1]);
            }
        }
    }
}

/// Folding a rendered tag block parses back to folding the pairs.
proof fn lemma_tags_into_render(acc: Map<Seq<char>, Seq<char>>, ps: Seq<(Seq<char>, Seq<char>)>)
    requires
        tag_pairs_wf(ps),
    ensures
        tags_into(acc, render_tag_block(ps)) == Some(tags_fold(acc, ps)),
    decreases ps.len(),
{
    let seg = render_tag_block(ps);
    let k = ps[0].0;
    let v = ps[0].1;
    let rp = render_pair(ps[0]);
    assert(rp[k.len() as int] == '=');
    assert(forall|j: int| 0 <= j < k.len() ==> #[trigger] rp[j] == k[j]);
    assert(forall|j: int| k.len() < j < rp.len() ==> #[trigger] rp[j] == v[j - k.len() - 1]);
    if ps.len() == 1 {
        assert forall|j: int| 0 <= j < seg.len() implies seg[j] != ';' by {
            if j < k.len() {
                assert(seg[j] == k[j]);
            } else if j > k.len() {
                assert(seg[j] == v[j - k.len() - 1]);
            }
        }
        lemma_find_from_none(seg, 0, ';');
        lemma_find_from_some(seg, 0, k.len() as int, '=');
        assert(seg.subrange(0, k.len() as int) =~= k);
        assert(seg.subrange(k.len() as int + 1, seg.len() as int) =~= v);
        assert(tags_fold(acc, ps) == tags_fold(acc.insert(k, v), ps.drop_first()));
    } else {
        let rest = ps.drop_first();
        assert(tag_pairs_wf(rest)) by {
            assert(forall|i: int| 0 <= i < rest.len() ==> rest[i] == ps[i + 1]);
        }
        let tail = render_tag_block(rest);
        assert(seg[rp.len() as int] == ';');
        assert forall|j: int| 0 <= j < rp.len() implies seg[j] != ';' by {
            assert(seg[j] == rp[j]);
            if j < k.len() {
                assert(rp[j] == k[j]);
            } else if j > k.len() {
                assert(rp[j] == v[j - k.len() - 1]);
            }
        }
        lemma_find_from_some(seg, 0, rp.len() as int, ';');
        let piece = seg.subrange(0, rp.len() as int);
        assert(piece =~= rp);
        assert forall|j: int| 0 <= j < k.len() implies piece[j] != '=' by {
            assert(piece[j] == k[j]);
        }
        lemma_find_from_some(piece, 0, k.len() as int, '=');
        assert(piece.subrange(0, k.len() as int) =~= k);
        assert(piece.subrange(k.len() as int + 1, piece.len() as int) =~= v);
        assert(seg.subrange(rp.len() as int + 1, seg.len() as int) =~= tail);
        lemma_tags_into_render(acc.insert(k, v), rest);
    }
}

/// What a key looks up in the folded mapping: the value of the pair that
/// carries it, or what `acc` held if no pair does.
pub proof fn lemma_tags_fold_lookup(
    acc: Map<Seq<char>, Seq<char>>,
    ps: Seq<(Seq<char>, Seq<char>)>,
    k: Seq<char>,
)
    requires
        forall|x: int, y: int| 0 <= x < y < ps.len() ==> ps[x].0 != ps[y].0,
    ensures
        forall|i: int|
            0 <= i < ps.len() && (#[trigger] ps[i].0) == k ==> tags_fold(acc, ps).contains_key(k)
                && tags_fold(acc, ps)[k] == ps[i].1,
        (forall|i: int| 0 <= i < ps.len() ==> (#[trigger] ps[i].0) != k) ==> (tags_fold(
            acc,
            ps,
        ).contains_key(k) <==> acc.contains_key(k)) && (acc.contains_key(k) ==> tags_fold(acc, ps)[k]
            == acc[k]),
    decreases ps.len(),
{
    if ps.len() > 0 {
        let rest = ps.drop_first();
        let acc2 = acc.insert(ps[0].0, ps[0].1);
        assert(forall|i: int| 0 <= i < rest.len() ==> rest[i] == ps[i + 1]);
        lemma_tags_fold_lookup(acc2, rest, k);
        assert(tags_fold(acc, ps) == tags_fold(acc2, rest));
        assert forall|i: int|
            0 <= i < ps.len() && (#[trigger] ps[i].0) == k implies tags_fold(acc, ps).contains_key(
                k,
            ) && tags_fold(acc, ps)[k] == ps[i].1 by {
            if i == 0 {
                assert forall|j: int| 0 <= j < rest.len() implies (#[trigger] rest[j].0) != k by {
                    assert(rest[j] == ps[j + 1]);
                    assert(ps[0].0 != ps[j + 1].0);
                }
                assert(acc2.contains_key(k) && acc2[k] == ps[0].1);
                assert(tags_fold(acc2, rest).contains_key(k) && tags_fold(acc2, rest)[k]
                    == acc2[k]);
            } else {
                assert(rest[i - 1] == ps[i]);
                assert(rest[i - 1].0 == k);
                assert(rest[i - 1].1 == ps[i].1);
            }
        }
        if forall|i: int| 0 <= i < ps.len() ==> (#[trigger] ps[i].0) != k {
            assert forall|j: int| 0 <= j < rest.len() implies (#[trigger] rest[j].0) != k by {
                assert(rest[j] == ps[j + 1]);
            }
            assert(ps[0].0 != k);
            assert((tags_fold(acc2, rest).contains_key(k) <==> acc2.contains_key(k)) && (
            acc2.contains_key(k) ==> tags_fold(acc2, rest)[k] == acc2[k]));
        }
    }
}

/// For every well-formed tag block `@k1=v1;k2=v2 ... `, the tag parse
/// returns the mapping with exactly those pairs and advances the cursor to
/// just past the separating space.
pub proof fn lemma_parse_tags_block(ps: Seq<(Seq<char>, Seq<char>)>, rest: Seq<char>)
    requires
        tag_pairs_wf(ps),
    ensures
        ({
            let block = render_tag_block(ps);
            let line = seq!['@'] + block + seq![' '] + rest;
            let m = tags_fold(Map::<Seq<char>, Seq<char>>::empty(), ps);
            &&& spec_parse_tags(line, 0) == Some((m, block.len() as int + 2))
            &&& ((forall|x: int, y: int| 0 <= x < y < ps.len() ==> ps[x].0 != ps[y].0) ==> {
                &&& (forall|i: int|
                    0 <= i < ps.len() ==> m.contains_key(#[trigger] ps[i].0) && m[ps[i].0]
                        == ps[i].1)
                &&& (forall|kk: Seq<char>|
                    #[trigger] m.contains_key(kk) ==> exists|i: int|
                        0 <= i < ps.len() && (#[trigger] ps[i].0) == kk)
            })
        }),
{
    let block = render_tag_block(ps);
    let line = seq!['@'] + block + seq![' '] + rest;
    let m = tags_fold(Map::<Seq<char>, Seq<char>>::empty(), ps);
    assert(line[0] == '@');
    lemma_render_block_no_space(ps);
    assert(line[1 + block.len() as int] == ' ');
    assert forall|j: int| 0 <= j < 1 + block.len() as int implies line[j] != ' ' by {
        if j > 0 {
            assert(line[j] == block[j - 1]);
        }
    }
    lemma_find_from_some(line, 0, 1 + block.len() as int, ' ');
    assert(line.subrange(1, 1 + block.len() as int) =~= block);
    lemma_tags_into_render(Map::<Seq<char>, Seq<char>>::empty(), ps);
    if forall|x: int, y: int| 0 <= x < y < ps.len() ==> ps[x].0 != ps[y].0 {
        assert forall|i: int|
            0 <= i < ps.len() implies m.contains_key(#[trigger] ps[i].0) && m[ps[i].0]
            == ps[i].1 by {
            lemma_tags_fold_lookup(Map::<Seq<char>, Seq<char>>::empty(), ps, ps[i].0);
        }
        assert forall|kk: Seq<char>| #[trigger] m.contains_key(kk) implies exists|i: int|
            0 <= i < ps.len() && (#[trigger] ps[i].0) == kk by {
            if forall|i: int| 0 <= i < ps.len() ==> (#[trigger] ps[i].0) != kk {
                lemma_tags_fold_lookup(Map::<Seq<char>, Seq<char>>::empty(), ps, kk);
                assert(!m.contains_key(kk));
            }
        }
    }
}

/// For every prefix of the form `:nick!user@host `, the prefix parse
/// extracts `nick`, `user` and `host` exactly as delimited, and the cursor
/// lands on the first character after the trailing space.
pub proof fn lemma_parse_prefix_nick_user_host(
    nick: Seq<char>,
    user: Seq<char>,
    host: Seq<char>,
    rest: Seq<char>,
)
    requires
        forall|i: int| 0 <= i < nick.len() ==> nick[i] != ' ' && nick[i] != '!',
        forall|i: int| 0 <= i < user.len() ==> user[i] != ' ' && user[i] != '@',
        forall|i: int| 0 <= i < host.len() ==> host[i] != ' ',
    ensures
        ({
            let line = seq![':'] + nick + seq!['!'] + user + seq!['@'] + host + seq![' '] + rest;
            spec_parse_prefix(line, 0) == Some(
                (
                    Some(nick),
                    Some(user),
                    host,
                    nick.len() + user.len() + host.len() + 4 as int,
                ),
            )
        }),
{
    let line = seq![':'] + nick + seq!['!'] + user + seq!['@'] + host + seq![' '] + rest;
    let nl = nick.len() as int;
    let ul = user.len() as int;
    let hl = host.len() as int;
    let end = 1 + nl + 1 + ul + 1 + hl;
    assert(line[0] == ':');
    assert(line[end] == ' ');
    assert forall|j: int| 0 <= j < end implies line[j] != ' ' by {
        if j == 0 {
            assert(line[j] == ':');
        } else if j < 1 + nl {
            assert(line[j] == nick[j - 1]);
        } else if j == 1 + nl {
            assert(line[j] == '!');
        } else if j < 2 + nl + ul {
            assert(line[j] == user[j - 2 - nl]);
        } else if j == 2 + nl + ul {
            assert(line[j] == '@');
        } else {
            assert(line[j] == host[j - 3 - nl - ul]);
        }
    }
    lemma_find_from_some(line, 0, end, ' ');
    let span = line.subrange(1, end);
    assert(span =~= nick + seq!['!'] + user + seq!['@'] + host);
    assert(span[nl] == '!');
    assert forall|j: int| 0 <= j < nl implies span[j] != '!' by {
        assert(span[j] == nick[j]);
    }
    lemma_find_from_some(span, 0, nl, '!');
    let a = nl + 1 + ul;
    assert(span[a] == '@');
    assert forall|j: int| nl + 1 <= j < a implies span[j] != '@' by {
        assert(span[j] == user[j - nl - 1]);
    }
    lemma_find_from_some(span, nl + 1, a, '@');
    assert(span.subrange(0, nl) =~= nick);
    assert(span.subrange(nl + 1, a) =~= user);
    assert(span.subrange(a + 1, span.len() as int) =~= host);
}

/// For every prefix of the form `:host ` without `!`, the prefix parse
/// leaves `nick` and `user` absent and takes the whole span as the host.
pub proof fn lemma_parse_prefix_host_only(host: Seq<char>, rest: Seq<char>)
    requires
        forall|i: int| 0 <= i < host.len() ==> host[i] != ' ' && host[i] != '!',
    ensures
        ({
            let line = seq![':'] + host + seq![' '] + rest;
            spec_parse_prefix(line, 0) == Some(
                (None::<Seq<char>>, None::<Seq<char>>, host, host.len() + 2 as int),
            )
        }),
{
    let line = seq![':'] + host + seq![' '] + rest;
    let hl = host.len() as int;
    let end = 1 + hl;
    assert(line[0] == ':');
    assert(line[end] == ' ');
    assert forall|j: int| 0 <= j < end implies line[j] != ' ' by {
        if j == 0 {
            assert(line[j] == ':');
        } else {
            assert(line[j] == host[j - 1]);
        }
    }
    lemma_find_from_some(line, 0, end, ' ');
    let span = line.subrange(1, end);
    assert(span =~= host);
    assert forall|j: int| 0 <= j < span.len() implies span[j] != '!' by {
        assert(span[j] == host[j]);
    }
    lemma_find_from_none(span, 0, '!');
}

/// Replacing the pair at `i` by one with the same key rebinds that key.
proof fn lemma_pairs_map_set(ps: Seq<(String, String)>, i: int, key: String, value: String)
    requires
        0 <= i < ps.len(),
        forall|x: int, y: int| 0 <= x < y < ps.len() ==> ps[x].0@ != ps[y].0@,
        ps[i].0@ == key@,
    ensures
        pairs_map(ps.update(i, (key, value))) == pairs_map(ps).insert(key@, value@),
        forall|x: int, y: int|
            0 <= x < y < ps.len() ==> ps.update(i, (key, value))[x].0@ != ps.update(
                i,
                (key, value),
            )[y].0@,
    decreases ps.len(),
{
    let qs = ps.update(i, (key, value));
    if i == ps.len() - 1 {
        assert(qs.drop_last() =~= ps.drop_last());
        assert(pairs_map(qs) == pairs_map(ps.drop_last()).insert(key@, value@));
        assert(pairs_map(ps.drop_last()).insert(ps.last().0@, ps.last().1@).insert(key@, value@)
            =~= pairs_map(ps.drop_last()).insert(key@, value@));
    } else {
        lemma_pairs_map_set(ps.drop_last(), i, key, value);
        assert(qs.drop_last() =~= ps.drop_last().update(i, (key, value)));
        assert(pairs_map(qs) == pairs_map(ps.drop_last()).insert(key@, value@).insert(
            ps.last().0@,
            ps.last().1@,
        ));
        assert(ps.last().0@ != key@);
        assert(pairs_map(ps.drop_last()).insert(key@, value@).insert(ps.last().0@, ps.last().1@)
            =~= pairs_map(ps.drop_last()).insert(ps.last().0@, ps.last().1@).insert(key@, value@));
    }
}

/// Pairs with view-equal keys and values denote the same mapping.
proof fn lemma_pairs_map_congruence(ps: Seq<(String, String)>, qs: Seq<(String, String)>)
    requires
        ps.len() == qs.len(),
        forall|j: int| 0 <= j < ps.len() ==> ps[j].0@ == qs[j].0@ && ps[j].1@ == qs[j].1@,
    ensures
        pairs_map(ps) == pairs_map(qs),
    decreases ps.len(),
{
    if ps.len() > 0 {
        lemma_pairs_map_congruence(ps.drop_last(), qs.drop_last());
    }
}

} // verus!
