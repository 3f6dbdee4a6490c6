//! The rules of a small chat room: how a line that a client sends is read,
//! and to whom the broker passes a message on.
//!
//! A client first sends its name, then lines of the form
//! `name, name, ...: text`. The broker knows the clients by name and passes
//! the text on to each named client that it knows.

use vstd::prelude::*;
use vstd::string::StrSliceExecFns;
use vstd::string::StringExecFns;

verus! {

/// Whether `c` is white space: a character that a trim takes off.
pub open spec fn white_space(c: char) -> bool {
    let u = c as u32;
    ||| 0x09 <= u <= 0x0d
    ||| u == 0x20
    ||| u == 0x85
    ||| u == 0xa0
    ||| u == 0x1680
    ||| 0x2000 <= u <= 0x200a
    ||| u == 0x2028
    ||| u == 0x2029
    ||| u == 0x202f
    ||| u == 0x205f
    ||| u == 0x3000
}

/// The first place at or after `k` where `s` holds something other than
/// white space; the length of `s` if there is none.
pub open spec fn first_solid(s: Seq<char>, k: int) -> int
    decreases s.len() - k,
{
    if k >= s.len() {
        s.len() as int
    } else if !white_space(s[k]) {
        k
    } else {
        first_solid(s, k + 1)
    }
}

/// One past the last place before `k` where `s` holds something other than
/// white space; zero if there is none.
pub open spec fn last_solid(s: Seq<char>, k: int) -> int
    decreases k,
{
    if k <= 0 {
        0
    } else if !white_space(s[k - 1]) {
        k
    } else {
        last_solid(s, k - 1)
    }
}

/// `s` without the white space at its two ends.
pub open spec fn trimmed(s: Seq<char>) -> Seq<char> {
    let from = first_solid(s, 0);
    let to = last_solid(s, s.len() as int);
    if from < to {
        s.subrange(from, to)
    } else {
        Seq::empty()
    }
}

/// The first place at or after `k` where `s` holds `c`; the length of `s`
/// if there is none.
pub open spec fn first_at(s: Seq<char>, c: char, k: int) -> int
    decreases s.len() - k,
{
    if k >= s.len() {
        s.len() as int
    } else if s[k] == c {
        k
    } else {
        first_at(s, c, k + 1)
    }
}

/// The pieces into which the occurrences of `c` at or after `i` part what
/// `s` holds from `start` on. The first piece begins at `start`.
pub open spec fn pieces(s: Seq<char>, c: char, start: int, i: int) -> Seq<Seq<char>>
    decreases s.len() - i,
{
    if i >= s.len() {
        seq![s.subrange(start, s.len() as int)]
    } else if s[i] == c {
        seq![s.subrange(start, i)] + pieces(s, c, i + 1, i + 1)
    } else {
        pieces(s, c, start, i + 1)
    }
}

/// The pieces of `s` between the occurrences of `c`. There is always one
/// piece more than there are occurrences.
pub open spec fn split_on(s: Seq<char>, c: char) -> Seq<Seq<char>> {
    pieces(s, c, 0, 0)
}

/// `parts` put together with one `c` between each two.
pub open spec fn joined(parts: Seq<Seq<char>>, c: char) -> Seq<char>
    decreases parts.len(),
{
    if parts.len() == 0 {
        Seq::empty()
    } else if parts.len() == 1 {
        parts[0]
    } else {
        parts[0] + seq![c] + joined(parts.drop_first(), c)
    }
}

/// What a line of a client says: to whom, and what.
pub open spec fn reading(line: Seq<char>) -> Option<(Seq<Seq<char>>, Seq<char>)> {
    let colon = first_at(line, ':', 0);
    if colon >= line.len() {
        None
    } else {
        Some(
            (
                split_on(line.subrange(0, colon), ',').map_values(|n: Seq<char>| trimmed(n)),
                trimmed(line.subrange(colon + 1, line.len() as int)),
            ),
        )
    }
}

/// What `first_solid` finds: white space up to it, and something solid at
/// it unless the sequence ends first.
proof fn lemma_first_solid(s: Seq<char>, k: int)
    requires
        0 <= k <= s.len(),
    ensures
        k <= first_solid(s, k) <= s.len(),
        forall|j: int| k <= j < first_solid(s, k) ==> white_space(s[j]),
        first_solid(s, k) < s.len() ==> !white_space(s[first_solid(s, k)]),
    decreases s.len() - k,
{
    if k < s.len() && white_space(s[k]) {
        lemma_first_solid(s, k + 1);
    }
}

/// What `last_solid` finds: white space from it on, and something solid
/// just before it unless the sequence begins there.
proof fn lemma_last_solid(s: Seq<char>, k: int)
    requires
        0 <= k <= s.len(),
    ensures
        0 <= last_solid(s, k) <= k,
        forall|j: int| last_solid(s, k) <= j < k ==> white_space(s[j]),
        last_solid(s, k) > 0 ==> !white_space(s[last_solid(s, k) - 1]),
    decreases k,
{
    if k > 0 && white_space(s[k - 1]) {
        lemma_last_solid(s, k - 1);
    }
}

/// A trim takes off white space and nothing else, and all of it: what it
/// leaves stands in the sequence between two runs of white space, and
/// begins and ends with something solid unless it is empty.
pub proof fn trim_takes_off_all_white_space_at_the_ends(s: Seq<char>) -> (ends: (int, int))
    ensures
        0 <= ends.0 <= ends.1 <= s.len(),
        trimmed(s) == s.subrange(ends.0, ends.1),
        forall|j: int| 0 <= j < ends.0 ==> white_space(s[j]),
        forall|j: int| ends.1 <= j < s.len() ==> white_space(s[j]),
        trimmed(s).len() > 0 ==> !white_space(trimmed(s).first()) && !white_space(
            trimmed(s).last(),
        ),
        trimmed(trimmed(s)) == trimmed(s),
{
    lemma_first_solid(s, 0);
    lemma_last_solid(s, s.len() as int);
    let from = first_solid(s, 0);
    let to = last_solid(s, s.len() as int);
    let t = trimmed(s);
    lemma_first_solid(t, 0);
    lemma_last_solid(t, t.len() as int);
    if from < to {
        assert(t.first() == s[from]);
        assert(t.last() == s[to - 1]);
        assert(t.subrange(0, t.len() as int) =~= t);
        (from, to)
    } else {
        assert(from == s.len()) by {
            if from < s.len() {
                assert(!white_space(s[from]));
            }
        }
        assert(s.subrange(from, from) =~= Seq::<char>::empty());
        (from, from)
    }
}

/// The pieces of a split hold no separator, and joined by the separator
/// they give back what was split.
pub proof fn split_parts_what_join_puts_together(s: Seq<char>, c: char)
    ensures
        split_on(s, c).len() >= 1,
        forall|i: int| 0 <= i < split_on(s, c).len() ==> !(#[trigger] split_on(s, c)[i]).contains(c),
        joined(split_on(s, c), c) == s,
{
    lemma_pieces(s, c, 0, 0);
    assert(s.subrange(0, s.len() as int) =~= s);
}

/// What holds of the pieces that are still to come while a split walks
/// through the sequence.
proof fn lemma_pieces(s: Seq<char>, c: char, start: int, i: int)
    requires
        0 <= start <= i <= s.len(),
        forall|j: int| start <= j < i ==> s[j] != c,
    ensures
        pieces(s, c, start, i).len() >= 1,
        forall|k: int|
            0 <= k < pieces(s, c, start, i).len() ==> !(#[trigger] pieces(s, c, start, i)[k]).contains(
                c,
            ),
        joined(pieces(s, c, start, i), c) == s.subrange(start, s.len() as int),
    decreases s.len() - i,
{
    let ps = pieces(s, c, start, i);
    if i >= s.len() {
        let only = s.subrange(start, s.len() as int);
        assert(ps =~= seq![only]);
        assert(ps[0] == only);
        assert forall|k: int| 0 <= k < ps.len() implies !(#[trigger] ps[k]).contains(c) by {
            if ps[k].contains(c) {
                let j = choose|j: int| 0 <= j < only.len() && only[j] == c;
                assert(s[start + j] == c);
            }
        }
    } else if s[i] == c {
        let head = s.subrange(start, i);
        let rest = pieces(s, c, i + 1, i + 1);
        lemma_pieces(s, c, i + 1, i + 1);
        assert(ps =~= seq![head] + rest);
        assert(ps[0] == head);
        assert(ps.drop_first() =~= rest);
        assert forall|k: int| 0 <= k < ps.len() implies !(#[trigger] ps[k]).contains(c) by {
            if k == 0 {
                if head.contains(c) {
                    let j = choose|j: int| 0 <= j < head.len() && head[j] == c;
                    assert(s[start + j] == c);
                }
            } else {
                assert(ps[k] == rest[k - 1]);
            }
        }
        assert(head + seq![c] + s.subrange(i + 1, s.len() as int) =~= s.subrange(
            start,
            s.len() as int,
        ));
    } else {
        lemma_pieces(s, c, start, i + 1);
    }
}

/// Whether `c` is white space.
pub fn is_white_space(c: char) -> (b: bool)
    ensures
        b == white_space(c),
{
    let u = c as u32;
    (0x09 <= u && u <= 0x0d) || u == 0x20 || u == 0x85 || u == 0xa0 || u == 0x1680 || (0x2000 <= u
        && u <= 0x200a) || u == 0x2028 || u == 0x2029 || u == 0x202f || u == 0x205f || u == 0x3000
}

/// Takes the white space off both ends of `s`.
pub fn trim<'a>(s: &'a str) -> (r: &'a str)
    ensures
        r@ == trimmed(s@),
{
    let n = s.unicode_len();
    let mut from: usize = 0;
    while from < n && is_white_space(s.get_char(from))
        invariant
            n == s@.len(),
            from <= n,
            first_solid(s@, 0) == first_solid(s@, from as int),
        decreases n - from,
    {
        from += 1;
    }
    let mut to: usize = n;
    while to > 0 && is_white_space(s.get_char(to - 1))
        invariant
            n == s@.len(),
            to <= n,
            last_solid(s@, n as int) == last_solid(s@, to as int),
        decreases to,
    {
        to -= 1;
    }
    if from < to {
        s.substring_char(from, to)
    } else {
        s.substring_char(0, 0)
    }
}

/// Reads a line of a client. A line without a colon says nothing. In any
/// other line the names of those it is for stand before the first colon,
/// with commas between them, and the text stands behind it. White space
/// around a name and around the text does not count.
pub fn parse_line(line: &str) -> (r: Option<(Vec<String>, String)>)
    ensures
        match r {
            None => reading(line@) is None,
            Some((to, msg)) => reading(line@) == Some((views(to@), msg@)),
        },
{
    let n = line.unicode_len();
    let mut colon: usize = 0;
    while colon < n && line.get_char(colon) != ':'
        invariant
            n == line@.len(),
            colon <= n,
            first_at(line@, ':', 0) == first_at(line@, ':', colon as int),
        decreases n - colon,
    {
        colon += 1;
    }
    if colon >= n {
        return None;
    }
    let dest = line.substring_char(0, colon);
    let msg = trim(line.substring_char(colon + 1, n)).to_owned();
    let to = split_names(dest);
    Some((to, msg))
}

/// The names of a list with commas between them, each without the white
/// space around it.
pub fn split_names(dest: &str) -> (names: Vec<String>)
    ensures
        views(names@) == split_on(dest@, ',').map_values(|n: Seq<char>| trimmed(n)),
{
    let ghost f = |n: Seq<char>| trimmed(n);
    let n = dest.unicode_len();
    let mut names: Vec<String> = Vec::new();
    let mut start: usize = 0;
    let mut i: usize = 0;
    while i < n
        invariant
            n == dest@.len(),
            start <= i <= n,
            f == |n: Seq<char>| trimmed(n),
            views(names@) + pieces(dest@, ',', start as int, i as int).map_values(f)
                == split_on(dest@, ',').map_values(f),
        decreases n - i,
    {
        if dest.get_char(i) == ',' {
            let name = trim(dest.substring_char(start, i)).to_owned();
            proof {
                let head = dest@.subrange(start as int, i as int);
                let rest = pieces(dest@, ',', i as int + 1, i as int + 1);
                assert(pieces(dest@, ',', start as int, i as int) =~= seq![head] + rest);
                assert((seq![head] + rest).map_values(f) =~= seq![f(head)] + rest.map_values(f));
                assert(views(names@).push(name@) + rest.map_values(f) =~= views(names@) + (
                seq![f(head)] + rest.map_values(f)));
                lemma_views_push(names@, name);
            }
            names.push(name);
            start = i + 1;
        }
        i += 1;
    }
    let name = trim(dest.substring_char(start, n)).to_owned();
    proof {
        let last = dest@.subrange(start as int, n as int);
        assert(pieces(dest@, ',', start as int, i as int) =~= seq![last]);
        assert(seq![last].map_values(f) =~= seq![f(last)]);
        assert(views(names@).push(name@) =~= views(names@) + seq![f(last)]);
        lemma_views_push(names@, name);
    }
    names.push(name);
    names
}

/// What the strings of a list hold, string by string.
pub open spec fn views(names: Seq<String>) -> Seq<Seq<char>> {
    names.map_values(|s: String| s@)
}

/// One more string at the end of a list is one more view at the end of the
/// list of views.
proof fn lemma_views_push(names: Seq<String>, name: String)
    ensures
        views(names.push(name)) == views(names).push(name@),
{
    assert(views(names.push(name)) =~= views(names).push(name@));
}

/// The line by which the broker passes a message on.
pub open spec fn passed_on(from: Seq<char>, msg: Seq<char>) -> Seq<char> {
    "from "@ + from + ": "@ + msg + "\n"@
}

/// Where `name` stands among `peers`, if it does.
pub open spec fn peer_index(peers: Seq<Seq<char>>, name: Seq<char>) -> Option<int> {
    peers.index_of_first(name)
}

/// The deliveries that a message for `to` makes among `peers`: for each
/// name in `to` that is a peer, in the order of `to`, the place of that
/// peer and the line to send to it. Names that are no peers are passed
/// over.
pub open spec fn deliveries(peers: Seq<Seq<char>>, to: Seq<Seq<char>>, text: Seq<char>) -> Seq<
    (int, Seq<char>),
>
    decreases to.len(),
{
    if to.len() == 0 {
        Seq::empty()
    } else {
        let before = deliveries(peers, to.drop_last(), text);
        match peer_index(peers, to.last()) {
            Some(i) => before.push((i, text)),
            None => before,
        }
    }
}

/// What the broker of a chat room knows: the names of the clients that
/// have joined, in the order in which they joined.
pub struct Broker {
    peers: Vec<String>,
}

impl Broker {
    /// The names of the peers in the order in which they joined.
    pub closed spec fn peers(&self) -> Seq<Seq<char>> {
        views(self.peers@)
    }

    /// The broker's invariant: no name is held twice.
    pub open spec fn wf(&self) -> bool {
        self.peers().no_duplicates()
    }

    /// A broker that knows nobody.
    pub fn new() -> (b: Self)
        ensures
            b.wf(),
            b.peers() == Seq::<Seq<char>>::empty(),
    {
        let b = Broker { peers: Vec::new() };
        assert(views(b.peers@) =~= Seq::<Seq<char>>::empty());
        b
    }

    /// The number of peers.
    pub fn len(&self) -> (n: usize)
        ensures
            n == self.peers().len(),
    {
        self.peers.len()
    }

    /// Where the peer `name` stands, if it has joined.
    pub fn find(&self, name: &String) -> (at: Option<usize>)
        ensures
            match at {
                Some(i) => peer_index(self.peers(), name@) == Some(i as int),
                None => peer_index(self.peers(), name@) is None,
            },
    {
        let mut i: usize = 0;
        while i < self.peers.len()
            invariant
                i <= self.peers.len(),
                forall|j: int| 0 <= j < i ==> self.peers()[j] != name@,
            decreases self.peers.len() - i,
        {
            assert(self.peers()[i as int] == self.peers@[i as int]@);
            if self.peers[i] == *name {
                proof {
                    self.peers().index_of_first_ensures(name@);
                }
                return Some(i);
            }
            i += 1;
        }
        proof {
            self.peers().index_of_first_ensures(name@);
        }
        None
    }

    /// A client has sent its name. If no peer has that name, the client
    /// joins and its place is returned, for the caller to open its way
    /// out. If the name is taken, nothing changes.
    pub fn new_peer(&mut self, name: String) -> (joined: Option<usize>)
        requires
            old(self).wf(),
        ensures
            final(self).wf(),
            match peer_index(old(self).peers(), name@) {
                Some(_) => joined is None && final(self).peers() == old(self).peers(),
                None => joined == Some(old(self).peers().len() as usize) && final(self).peers()
                    == old(self).peers().push(name@),
            },
    {
        proof {
            self.peers().index_of_first_ensures(name@);
        }
        match self.find(&name) {
            Some(_) => None,
            None => {
                let at = self.peers.len();
                proof {
                    lemma_views_push(self.peers@, name);
                }
                self.peers.push(name);
                Some(at)
            },
        }
    }

    /// A message from `from` for the clients named in `to`. Returns, for
    /// each of them that has joined, its place and the line to send to it.
    pub fn message(&self, from: &String, to: &Vec<String>, msg: &String) -> (out: Vec<
        (usize, String),
    >)
        ensures
            out@.len() == deliveries(self.peers(), views(to@), passed_on(from@, msg@)).len(),
            forall|k: int|
                0 <= k < out@.len() ==> (#[trigger] out@[k]).0 as int == deliveries(
                    self.peers(),
                    views(to@),
                    passed_on(from@, msg@),
                )[k].0 && out@[k].1@ == passed_on(from@, msg@),
    {
        let ghost text = passed_on(from@, msg@);
        let ghost names = views(to@);
        let mut out: Vec<(usize, String)> = Vec::new();
        let mut i: usize = 0;
        while i < to.len()
            invariant
                i <= to.len(),
                names == views(to@),
                text == passed_on(from@, msg@),
                out@.len() == deliveries(self.peers(), names.take(i as int), text).len(),
                forall|k: int|
                    0 <= k < out@.len() ==> (#[trigger] out@[k]).0 as int == deliveries(
                        self.peers(),
                        names.take(i as int),
                        text,
                    )[k].0 && out@[k].1@ == text,
            decreases to.len() - i,
        {
            proof {
                assert(names.take(i as int + 1).drop_last() =~= names.take(i as int));
                assert(names.take(i as int + 1).last() == to@[i as int]@);
            }
            match self.find(&to[i]) {
                Some(at) => {
                    out.push((at, line_for(from, msg)));
                },
                None => {},
            }
            i += 1;
        }
        proof {
            assert(names.take(to.len() as int) =~= names);
        }
        out
    }
}

/// Makes the line by which a message is passed on.
pub fn line_for(from: &String, msg: &String) -> (line: String)
    ensures
        line@ == passed_on(from@, msg@),
{
    let mut line = String::from_str("from ");
    line.append(from.as_str());
    line.append(": ");
    line.append(msg.as_str());
    line.append("\n");
    line
}

} // verus!
