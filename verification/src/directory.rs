//! Peer directory: the set of addresses a node has observed, answered back
//! to clients as newline-joined text.
//!
//! Registration is an idempotent insert, performed the first time any
//! datagram is observed from an address; entries never expire. Only the
//! currently elected leader answers a directory query; non-leaders keep the
//! set current but stay silent.

use vstd::prelude::*;
use vstd::string::StringExecFns;
use vstd::string::StrSliceExecFns;

verus! {

/// Known peer addresses, in the order they were first observed, no address
/// twice.
pub struct Directory {
    addrs: Vec<String>,
}

/// One line per entry, each line closed by a newline character.
pub open spec fn spec_join_trailing(lines: Seq<Seq<char>>) -> Seq<char>
    decreases lines.len(),
{
    if lines.len() == 0 {
        Seq::empty()
    } else {
        lines[0] + seq!['\n'] + spec_join_trailing(lines.skip(1))
    }
}

/// The lines with every occurrence of `who` left out, order kept.
pub open spec fn spec_excluding(lines: Seq<Seq<char>>, who: Seq<char>) -> Seq<Seq<char>>
    decreases lines.len(),
{
    if lines.len() == 0 {
        Seq::empty()
    } else if lines[0] == who {
        spec_excluding(lines.skip(1), who)
    } else {
        seq![lines[0]] + spec_excluding(lines.skip(1), who)
    }
}

impl View for Directory {
    type V = Seq<Seq<char>>;

    closed spec fn view(&self) -> Seq<Seq<char>> {
        self.addrs@.map_values(|a: String| a@)
    }
}

impl Directory {
    /// No address is recorded twice.
    pub open spec fn wf(&self) -> bool {
        forall|i: int, j: int| 0 <= i < j < self@.len() ==> self@[i] != self@[j]
    }

    /// Creates an empty directory.
    pub fn new() -> (d: Directory)
        ensures
            d.wf(),
            d@ == Seq::<Seq<char>>::empty(),
    {
        let d = Directory { addrs: Vec::new() };
        proof {
            assert(d@ =~= Seq::<Seq<char>>::empty());
        }
        d
    }

    /// How many addresses are known.
    pub fn len(&self) -> (n: usize)
        ensures
            n == self@.len(),
    {
        self.addrs.len()
    }

    /// Whether `addr` is already known.
    pub fn contains(&self, addr: &String) -> (known: bool)
        ensures
            known == self@.contains(addr@),
    {
        let mut i: usize = 0;
        while i < self.addrs.len()
            invariant
                0 <= i <= self.addrs@.len(),
                self@.len() == self.addrs@.len(),
                forall|j: int| 0 <= j < i ==> self@[j] != addr@,
            decreases self.addrs@.len() - i,
        {
            proof {
                assert(self@[i as int] == self.addrs@[i as int]@);
            }
            if self.addrs[i] == *addr {
                proof {
                    assert(self@[i as int] == addr@);
                }
                return true;
            }
            i += 1;
        }
        proof {
            if self@.contains(addr@) {
                let j = choose|j: int| 0 <= j < self@.len() && self@[j] == addr@;
                assert(self@[j] != addr@);
            }
        }
        false
    }

    /// Records an address, doing nothing if it is already known. Returns
    /// whether the address was new.
    pub fn register(&mut self, addr: &String) -> (fresh: bool)
        requires
            old(self).wf(),
        ensures
            final(self).wf(),
            fresh == !old(self)@.contains(addr@),
            final(self)@ == if old(self)@.contains(addr@) {
                old(self)@
            } else {
                old(self)@.push(addr@)
            },
    {
        if self.contains(addr) {
            return false;
        }
        let ghost before = self.addrs@;
        self.addrs.push(addr.clone());
        proof {
            assert(self@ =~= before.map_values(|a: String| a@).push(addr@));
            assert(forall|i: int| 0 <= i < before.len() ==> self@[i] == old(self)@[i]);
            assert(self@[before.len() as int] == addr@);
            assert(forall|i: int, j: int| 0 <= i < j < self@.len() ==> self@[i] != self@[j]) by {
                assert(forall|i: int|
                    0 <= i < before.len() ==> self@[i] == old(self)@[i] && !(self@[i] == addr@));
            }
        }
        true
    }

    /// Serializes the directory for transmission: every known address but
    /// the requester's own, one per line, each line closed by a newline.
    pub fn snapshot_excluding(&self, requester: &String) -> (text: String)
        ensures
            text@ == spec_join_trailing(spec_excluding(self@, requester@)),
    {
        let mut text = String::new();
        let mut i: usize = 0;
        proof {
            assert(self@.skip(0) =~= self@);
        }
        while i < self.addrs.len()
            invariant
                0 <= i <= self.addrs@.len(),
                self@.len() == self.addrs@.len(),
                spec_join_trailing(spec_excluding(self@, requester@)) == text@
                    + spec_join_trailing(spec_excluding(self@.skip(i as int), requester@)),
            decreases self.addrs@.len() - i,
        {
            let ghost rest = self@.skip(i as int);
            proof {
                assert(rest.len() > 0);
                assert(rest[0] == self@[i as int]);
                assert(self@[i as int] == self.addrs@[i as int]@);
                assert(rest.skip(1) =~= self@.skip(i as int + 1));
            }
            if !(self.addrs[i] == *requester) {
                let ghost text_before = text@;
                text.append(self.addrs[i].as_str());
                text.append("\n");
                proof {
                    reveal_strlit("\n");
                    assert(("\n")@ =~= seq!['\n']);
                    assert(spec_excluding(rest, requester@) == seq![rest[0]] + spec_excluding(
                        rest.skip(1),
                        requester@,
                    ));
                    let tail = spec_excluding(rest, requester@);
                    assert(tail[0] == rest[0]);
                    assert(tail.skip(1) =~= spec_excluding(rest.skip(1), requester@));
                    assert(spec_join_trailing(tail) == tail[0] + seq!['\n'] + spec_join_trailing(
                        tail.skip(1),
                    ));
                    assert(text@ =~= text_before + rest[0] + seq!['\n']);
                    assert(text_before + spec_join_trailing(spec_excluding(rest, requester@))
                        =~= text@ + spec_join_trailing(
                        spec_excluding(self@.skip(i as int + 1), requester@),
                    ));
                }
            } else {
                proof {
                    assert(rest[0] == requester@);
                    assert(spec_excluding(rest, requester@) == spec_excluding(
                        rest.skip(1),
                        requester@,
                    ));
                }
            }
            i += 1;
        }
        proof {
            assert(self@.skip(self.addrs@.len() as int) =~= Seq::<Seq<char>>::empty());
            assert(spec_join_trailing(Seq::<Seq<char>>::empty()) == Seq::<char>::empty());
            assert(text@ + Seq::<char>::empty() =~= text@);
        }
        text
    }
}

/// The text split at every newline character: one entry more than there are
/// newlines, and the text between consecutive newlines, in order.
pub open spec fn spec_split_lines(s: Seq<char>) -> Seq<Seq<char>>
    decreases s.len(),
{
    if s.len() == 0 {
        seq![Seq::<char>::empty()]
    } else if s[0] == '\n' {
        seq![Seq::<char>::empty()] + spec_split_lines(s.skip(1))
    } else {
        let rest = spec_split_lines(s.skip(1));
        seq![seq![s[0]] + rest[0]] + rest.skip(1)
    }
}

proof fn lemma_split_nonempty(s: Seq<char>)
    ensures
        spec_split_lines(s).len() >= 1,
    decreases s.len(),
{
    if s.len() > 0 {
        lemma_split_nonempty(s.skip(1));
    }
}

proof fn lemma_split_no_newline(s: Seq<char>)
    requires
        forall|j: int| 0 <= j < s.len() ==> s[j] != '\n',
    ensures
        spec_split_lines(s) == seq![s],
    decreases s.len(),
{
    if s.len() == 0 {
        assert(s =~= Seq::<char>::empty());
        assert(spec_split_lines(s) == seq![s]);
    } else {
        assert(forall|j: int| 0 <= j < s.skip(1).len() ==> s.skip(1)[j] == s[j + 1]);
        lemma_split_no_newline(s.skip(1));
        let rest = spec_split_lines(s.skip(1));
        assert(rest[0] == s.skip(1));
        assert(seq![s[0]] + s.skip(1) =~= s);
        assert(rest.skip(1) =~= Seq::<Seq<char>>::empty());
        assert(spec_split_lines(s) =~= seq![s]);
    }
}

proof fn lemma_split_first_line(s: Seq<char>, k: int)
    requires
        0 <= k < s.len(),
        s[k] == '\n',
        forall|j: int| 0 <= j < k ==> s[j] != '\n',
    ensures
        spec_split_lines(s) == seq![s.take(k)] + spec_split_lines(s.skip(k + 1)),
    decreases k,
{
    if k == 0 {
        assert(s.take(0) =~= Seq::<char>::empty());
    } else {
        assert(forall|j: int| 0 <= j < s.skip(1).len() ==> s.skip(1)[j] == s[j + 1]);
        lemma_split_first_line(s.skip(1), k - 1);
        let rest = spec_split_lines(s.skip(1));
        assert(rest == seq![s.skip(1).take(k - 1)] + spec_split_lines(s.skip(1).skip(k)));
        lemma_split_nonempty(s.skip(1).skip(k));
        assert(rest[0] == s.skip(1).take(k - 1));
        assert(seq![s[0]] + s.skip(1).take(k - 1) =~= s.take(k));
        assert(rest.skip(1) =~= spec_split_lines(s.skip(1).skip(k)));
        assert(s.skip(1).skip(k) =~= s.skip(k + 1));
        assert(spec_split_lines(s) == seq![seq![s[0]] + rest[0]] + rest.skip(1));
        assert(seq![seq![s[0]] + rest[0]] + rest.skip(1) =~= seq![s.take(k)] + spec_split_lines(
            s.skip(k + 1),
        ));
    }
}

/// Splits text at newline characters, as the directory's own snapshot
/// format expects.
pub fn split_lines(text: &String) -> (lines: Vec<String>)
    ensures
        lines@.map_values(|l: String| l@) == spec_split_lines(text@),
{
    let len = text.as_str().unicode_len();
    let mut lines: Vec<String> = Vec::new();
    let mut start: usize = 0;
    let mut i: usize = 0;
    proof {
        assert(text@.skip(0) =~= text@);
        assert(lines@.map_values(|l: String| l@) =~= Seq::<Seq<char>>::empty());
    }
    while i < len
        invariant
            len == text@.len(),
            0 <= start <= i <= len,
            forall|j: int| start <= j < i ==> text@[j] != '\n',
            spec_split_lines(text@) =~= lines@.map_values(|l: String| l@) + spec_split_lines(
                text@.skip(start as int),
            ),
        decreases len - i,
    {
        if text.as_str().get_char(i) == '\n' {
            let piece = String::from_str(text.as_str().substring_char(start, i));
            let ghost before = lines@;
            lines.push(piece);
            proof {
                let tail = text@.skip(start as int);
                assert(forall|j: int| 0 <= j < tail.len() ==> tail[j] == text@[j + start]);
                lemma_split_first_line(tail, i - start);
                assert(tail.take(i - start) =~= text@.subrange(start as int, i as int));
                assert(tail.skip(i - start + 1) =~= text@.skip(i as int + 1));
                assert(lines@.map_values(|l: String| l@) =~= before.map_values(|l: String| l@)
                    + seq![text@.subrange(start as int, i as int)]);
                assert(spec_split_lines(text@) =~= lines@.map_values(|l: String| l@)
                    + spec_split_lines(text@.skip(i as int + 1)));
            }
            start = i + 1;
        }
        i += 1;
    }
    let piece = String::from_str(text.as_str().substring_char(start, len));
    let ghost before = lines@;
    lines.push(piece);
    proof {
        let tail = text@.skip(start as int);
        assert(forall|j: int| 0 <= j < tail.len() ==> tail[j] == text@[j + start]);
        lemma_split_no_newline(tail);
        assert(tail =~= text@.subrange(start as int, len as int));
        assert(lines@.map_values(|l: String| l@) =~= before.map_values(|l: String| l@) + seq![
            text@.subrange(start as int, len as int),
        ]);
        assert(lines@.map_values(|l: String| l@) =~= spec_split_lines(text@));
    }
    lines
}

/// The peer addresses a client keeps from a directory answer: every
/// non-empty line that is not its own address, with the listening-port
/// suffix attached.
pub open spec fn spec_client_peers(lines: Seq<Seq<char>>, own: Seq<char>, suffix: Seq<char>) -> Seq<
    Seq<char>,
>
    decreases lines.len(),
{
    if lines.len() == 0 {
        Seq::empty()
    } else if lines[0].len() == 0 || lines[0] == own {
        spec_client_peers(lines.skip(1), own, suffix)
    } else {
        seq![lines[0] + suffix] + spec_client_peers(lines.skip(1), own, suffix)
    }
}

/// Reads a directory answer: splits it into lines, drops empty lines and
/// the client's own address, and attaches the listening-port suffix to each
/// remaining peer. The port suffix is deployment configuration, handed in
/// by the caller.
pub fn client_build_directory(text: &String, own: &String, suffix: &str) -> (peers: Vec<String>)
    ensures
        peers@.map_values(|p: String| p@) == spec_client_peers(
            spec_split_lines(text@),
            own@,
            suffix@,
        ),
{
    let lines = split_lines(text);
    let mut peers: Vec<String> = Vec::new();
    let mut i: usize = 0;
    proof {
        assert(lines@.map_values(|l: String| l@).skip(0) =~= lines@.map_values(|l: String| l@));
        assert(peers@.map_values(|p: String| p@) =~= Seq::<Seq<char>>::empty());
    }
    while i < lines.len()
        invariant
            0 <= i <= lines@.len(),
            lines@.map_values(|l: String| l@) == spec_split_lines(text@),
            spec_client_peers(spec_split_lines(text@), own@, suffix@) =~= peers@.map_values(
                |p: String| p@,
            ) + spec_client_peers(
                lines@.map_values(|l: String| l@).skip(i as int),
                own@,
                suffix@,
            ),
        decreases lines@.len() - i,
    {
        let ghost lviews = lines@.map_values(|l: String| l@);
        let ghost rest = lviews.skip(i as int);
        proof {
            assert(rest.len() > 0);
            assert(rest[0] == lviews[i as int]);
            assert(lviews[i as int] == lines@[i as int]@);
            assert(rest.skip(1) =~= lviews.skip(i as int + 1));
        }
        let line_len = lines[i].as_str().unicode_len();
        if line_len > 0 && !(lines[i] == *own) {
            let peer = lines[i].clone().concat(suffix);
            let ghost before = peers@;
            peers.push(peer);
            proof {
                assert(spec_client_peers(rest, own@, suffix@) == seq![rest[0] + suffix@]
                    + spec_client_peers(rest.skip(1), own@, suffix@));
                assert(peers@.map_values(|p: String| p@) =~= before.map_values(|p: String| p@)
                    + seq![rest[0] + suffix@]);
                assert(spec_client_peers(spec_split_lines(text@), own@, suffix@)
                    =~= peers@.map_values(|p: String| p@) + spec_client_peers(
                    lviews.skip(i as int + 1),
                    own@,
                    suffix@,
                ));
            }
        } else {
            proof {
                assert(spec_client_peers(rest, own@, suffix@) == spec_client_peers(
                    rest.skip(1),
                    own@,
                    suffix@,
                ));
            }
        }
        i += 1;
    }
    proof {
        let lviews = lines@.map_values(|l: String| l@);
        assert(lviews.skip(lviews.len() as int) =~= Seq::<Seq<char>>::empty());
        assert(peers@.map_values(|p: String| p@) + Seq::<Seq<char>>::empty() =~= peers@.map_values(
            |p: String| p@,
        ));
    }
    peers
}

proof fn lemma_split_of_join(lines: Seq<Seq<char>>)
    requires
        forall|i: int, j: int|
            0 <= i < lines.len() && 0 <= j < lines[i].len() ==> #[trigger] lines[i][j] != '\n',
    ensures
        spec_split_lines(spec_join_trailing(lines)) == lines.push(Seq::<char>::empty()),
    decreases lines.len(),
{
    if lines.len() == 0 {
        assert(spec_join_trailing(lines) == Seq::<char>::empty());
        assert(spec_split_lines(Seq::<char>::empty()) == seq![Seq::<char>::empty()]);
        assert(lines.push(Seq::<char>::empty()) =~= seq![Seq::<char>::empty()]);
    } else {
        let head = lines[0];
        let rest = lines.skip(1);
        assert(forall|i: int| 0 <= i < rest.len() ==> #[trigger] rest[i] == lines[i + 1]);
        assert(forall|i: int, j: int|
            0 <= i < rest.len() && 0 <= j < rest[i].len() ==> #[trigger] rest[i][j] != '\n');
        lemma_split_of_join(rest);
        let joined = spec_join_trailing(lines);
        assert(joined == head + seq!['\n'] + spec_join_trailing(rest));
        let k = head.len() as int;
        assert(0 <= k < joined.len());
        assert(joined[k] == '\n');
        assert(forall|j: int| 0 <= j < k ==> joined[j] == head[j] && joined[j] != '\n');
        lemma_split_first_line(joined, k);
        assert(joined.take(k) =~= head);
        assert(joined.skip(k + 1) =~= spec_join_trailing(rest));
        assert(spec_split_lines(joined) == seq![head] + spec_split_lines(spec_join_trailing(rest)));
        assert(seq![head] + rest.push(Seq::<char>::empty()) =~= lines.push(Seq::<char>::empty()));
    }
}

proof fn lemma_client_peers_ignores_trailing_empty(
    lines: Seq<Seq<char>>,
    own: Seq<char>,
    suffix: Seq<char>,
)
    ensures
        spec_client_peers(lines.push(Seq::<char>::empty()), own, suffix) == spec_client_peers(
            lines,
            own,
            suffix,
        ),
    decreases lines.len(),
{
    if lines.len() == 0 {
        assert(lines.push(Seq::<char>::empty()) =~= seq![Seq::<char>::empty()]);
        assert(seq![Seq::<char>::empty()].skip(1) =~= Seq::<Seq<char>>::empty());
        assert(spec_client_peers(seq![Seq::<char>::empty()], own, suffix) == spec_client_peers(
            Seq::<Seq<char>>::empty(),
            own,
            suffix,
        ));
    } else {
        lemma_client_peers_ignores_trailing_empty(lines.skip(1), own, suffix);
        let pushed = lines.push(Seq::<char>::empty());
        assert(pushed[0] == lines[0]);
        assert(pushed.skip(1) =~= lines.skip(1).push(Seq::<char>::empty()));
    }
}

proof fn lemma_client_peers_of_nonempty_lines(
    lines: Seq<Seq<char>>,
    own: Seq<char>,
    suffix: Seq<char>,
)
    requires
        forall|i: int| 0 <= i < lines.len() ==> (#[trigger] lines[i]).len() > 0,
    ensures
        spec_client_peers(lines, own, suffix) == spec_excluding(lines, own).map_values(
            |l: Seq<char>| l + suffix,
        ),
    decreases lines.len(),
{
    if lines.len() == 0 {
        assert(spec_excluding(lines, own).map_values(|l: Seq<char>| l + suffix)
            =~= Seq::<Seq<char>>::empty());
    } else {
        assert(forall|i: int|
            0 <= i < lines.skip(1).len() ==> (#[trigger] lines.skip(1)[i]) == lines[i + 1]);
        lemma_client_peers_of_nonempty_lines(lines.skip(1), own, suffix);
        if lines[0] == own {
            assert(spec_excluding(lines, own) == spec_excluding(lines.skip(1), own));
        } else {
            assert(lines[0].len() > 0);
            assert(spec_excluding(lines, own) == seq![lines[0]] + spec_excluding(
                lines.skip(1),
                own,
            ));
            assert((seq![lines[0]] + spec_excluding(lines.skip(1), own)).map_values(
                |l: Seq<char>| l + suffix,
            ) =~= seq![lines[0] + suffix] + spec_excluding(lines.skip(1), own).map_values(
                |l: Seq<char>| l + suffix,
            ));
        }
    }
}

/// The directory round trip: a snapshot that excludes the requester,
/// parsed back by a client, yields exactly the recorded addresses with the
/// requester's and the client's own address left out, each with the
/// listening-port suffix attached — provided addresses are non-empty and
/// hold no newline, which the line-based snapshot format presumes.
pub proof fn lemma_directory_round_trip(
    addrs: Seq<Seq<char>>,
    requester: Seq<char>,
    own: Seq<char>,
    suffix: Seq<char>,
)
    requires
        forall|i: int| 0 <= i < addrs.len() ==> (#[trigger] addrs[i]).len() > 0,
        forall|i: int, j: int|
            0 <= i < addrs.len() && 0 <= j < addrs[i].len() ==> #[trigger] addrs[i][j] != '\n',
    ensures
        spec_client_peers(
            spec_split_lines(spec_join_trailing(spec_excluding(addrs, requester))),
            own,
            suffix,
        ) == spec_excluding(spec_excluding(addrs, requester), own).map_values(
            |l: Seq<char>| l + suffix,
        ),
    decreases addrs.len(),
{
    let published = spec_excluding(addrs, requester);
    lemma_excluding_keeps_lines(addrs, requester);
    lemma_split_of_join(published);
    lemma_client_peers_ignores_trailing_empty(published, own, suffix);
    lemma_client_peers_of_nonempty_lines(published, own, suffix);
}

proof fn lemma_excluding_keeps_lines(addrs: Seq<Seq<char>>, who: Seq<char>)
    requires
        forall|i: int| 0 <= i < addrs.len() ==> (#[trigger] addrs[i]).len() > 0,
        forall|i: int, j: int|
            0 <= i < addrs.len() && 0 <= j < addrs[i].len() ==> #[trigger] addrs[i][j] != '\n',
    ensures
        forall|i: int|
            0 <= i < spec_excluding(addrs, who).len() ==> (#[trigger] spec_excluding(addrs, who)[i]).len()
                > 0,
        forall|i: int, j: int|
            0 <= i < spec_excluding(addrs, who).len() && 0 <= j < spec_excluding(addrs, who)[i].len()
                ==> #[trigger] spec_excluding(addrs, who)[i][j] != '\n',
    decreases addrs.len(),
{
    if addrs.len() > 0 {
        assert(forall|i: int|
            0 <= i < addrs.skip(1).len() ==> (#[trigger] addrs.skip(1)[i]) == addrs[i + 1]);
        lemma_excluding_keeps_lines(addrs.skip(1), who);
        if addrs[0] != who {
            let kept = spec_excluding(addrs, who);
            assert(kept == seq![addrs[0]] + spec_excluding(addrs.skip(1), who));
            assert(forall|i: int|
                0 <= i < kept.len() ==> (#[trigger] kept[i]) == (if i == 0 {
                    addrs[0]
                } else {
                    spec_excluding(addrs.skip(1), who)[i - 1]
                }));
        }
    }
}


} // verus!
