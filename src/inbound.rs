use crate::address::{eq_ignore_ascii_case, str_eq_ignore_ascii_case, trim, trim_of};
use crate::channel::{sender_allowed, EmailChannel};
use crate::thread_meta::{encode_spec, EmailThreadMeta, MetaView, SEP};
use vstd::prelude::*;
use vstd::string::*;

verus! {

/// One message read from the mailbox in a poll cycle. Its `uid` is what the
/// server assigned in that cycle; some servers renumber after a reconnect.
pub struct InboundEmail {
    pub uid: String,
    pub sender: String,
    pub content: String,
    pub thread: EmailThreadMeta,
}

/// A message as handed to the bus.
pub struct ChannelMessage {
    pub id: String,
    pub sender: String,
    pub content: String,
    pub channel: String,
    pub timestamp: u64,
}

/// One entry of a `From` header: a single mailbox or a named group.
pub enum MailAddress {
    Single(String),
    Group(Vec<String>),
}

/// A sub-part of a MIME message: its media type and its decoded body, `None`
/// where the body could not be decoded.
pub struct MimePart {
    pub mimetype: String,
    pub body: Option<String>,
}

/// Why a poll cycle ended before its batch was complete.
#[derive(Clone, Copy, Debug, PartialEq, Eq)]
pub enum PollError {
    Connect,
    Login,
    Select,
    Search,
    Fetch,
}

/// The deduplication key of a message: its uid, followed by the separator
/// and its encoded thread record when it has one.
pub open spec fn message_key_of(uid: Seq<char>, thread: MetaView) -> Seq<char> {
    if thread.0 is None && thread.1 is None {
        uid
    } else {
        uid + seq![SEP] + encode_spec(thread)
    }
}

pub open spec fn key_of(m: InboundEmail) -> Seq<char> {
    message_key_of(m.uid@, m.thread@)
}

/// Delivering a message with key `key`: the keys seen afterwards, and whether
/// it goes to the bus.
pub open spec fn deliver_step(seen: Set<Seq<char>>, key: Seq<char>, allowed: bool) -> (
    Set<Seq<char>>,
    bool,
) {
    (seen.insert(key), !seen.contains(key) && allowed)
}

/// Delivering a batch in order: the keys seen afterwards, and the keys of
/// the messages that go to the bus, in order.
pub open spec fn deliver_all(seen: Set<Seq<char>>, items: Seq<(Seq<char>, bool)>) -> (
    Set<Seq<char>>,
    Seq<Seq<char>>,
)
    decreases items.len(),
{
    if items.len() == 0 {
        (seen, seq![])
    } else {
        let prev = deliver_all(seen, items.drop_last());
        let step = deliver_step(prev.0, items.last().0, items.last().1);
        (step.0, if step.1 {
            prev.1.push(items.last().0)
        } else {
            prev.1
        })
    }
}

/// The positions in the batch of the messages that go to the bus, in order.
pub open spec fn delivered_index(seen: Set<Seq<char>>, items: Seq<(Seq<char>, bool)>) -> Seq<int>
    decreases items.len(),
{
    if items.len() == 0 {
        seq![]
    } else {
        let prev = deliver_all(seen, items.drop_last());
        let step = deliver_step(prev.0, items.last().0, items.last().1);
        let earlier = delivered_index(seen, items.drop_last());
        if step.1 {
            earlier.push(items.len() - 1)
        } else {
            earlier
        }
    }
}

/// `m` is the bus message made of `e` at time `timestamp`.
pub open spec fn message_from(m: ChannelMessage, e: InboundEmail, timestamp: u64) -> bool {
    &&& m.id@ == key_of(e)
    &&& m.sender@ == e.sender@
    &&& m.content@ == e.content@
    &&& m.channel@ == email_lit()
    &&& m.timestamp == timestamp
}

/// The key of each message of a batch, with whether its sender is allowed.
pub open spec fn batch_items(list: Seq<Seq<char>>, batch: Seq<InboundEmail>) -> Seq<(Seq<char>, bool)> {
    batch.map_values(|m: InboundEmail| (key_of(m), sender_allowed(list, m.sender@)))
}

pub open spec fn email_lit() -> Seq<char> {
    seq!['e', 'm', 'a', 'i', 'l']
}

/// The same message delivered twice reaches the bus once: the first time when
/// it is new and its sender allowed, never the second time.
pub proof fn lemma_dedup(seen: Set<Seq<char>>, key: Seq<char>, allowed: bool)
    ensures
        !deliver_step(deliver_step(seen, key, allowed).0, key, allowed).1,
        deliver_step(seen, key, allowed).1 == (!seen.contains(key) && allowed),
{
}

/// Over any run of deliveries, no key reaches the bus twice, none that had
/// been seen before does, and every key delivered is recorded as seen.
pub proof fn lemma_deliver_all_distinct(seen: Set<Seq<char>>, items: Seq<(Seq<char>, bool)>)
    ensures
        deliver_all(seen, items).1.no_duplicates(),
        forall|k: Seq<char>| #[trigger]
            deliver_all(seen, items).1.contains(k) ==> !seen.contains(k) && deliver_all(
                seen,
                items,
            ).0.contains(k),
        seen.subset_of(deliver_all(seen, items).0),
    decreases items.len(),
{
    if items.len() > 0 {
        let prev = deliver_all(seen, items.drop_last());
        lemma_deliver_all_distinct(seen, items.drop_last());
        let k = items.last().0;
        let step = deliver_step(prev.0, k, items.last().1);
        if step.1 {
            let d = prev.1.push(k);
            assert(!prev.1.contains(k));
            assert forall|i: int, j: int| 0 <= i < d.len() && 0 <= j < d.len() && i != j implies d[i]
                != d[j] by {
                if j == d.len() - 1 {
                    assert(prev.1.contains(d[i]) || i == d.len() - 1);
                } else if i == d.len() - 1 {
                    assert(prev.1.contains(d[j]));
                }
            }
            assert forall|x: Seq<char>| #[trigger] d.contains(x) implies !seen.contains(x)
                && step.0.contains(x) by {
                if x != k {
                    let i = choose|i: int| 0 <= i < d.len() && d[i] == x;
                    assert(prev.1[i] == x);
                    assert(prev.1.contains(x));
                } else {
                    assert(!prev.0.contains(k));
                    if seen.contains(k) {
                        assert(prev.0.contains(k));
                    }
                }
            }
        }
    }
}

/// The sender of a message: the first single mailbox, or the first member of
/// the first group that has one.
pub open spec fn sender_choice(addrs: Seq<MailAddress>) -> Option<Seq<char>>
    decreases addrs.len(),
{
    if addrs.len() == 0 {
        None
    } else {
        match addrs[0] {
            MailAddress::Single(a) => Some(a@),
            MailAddress::Group(g) => if g@.len() > 0 {
                Some(g@[0]@)
            } else {
                sender_choice(addrs.drop_first())
            },
        }
    }
}

pub open spec fn text_plain_lit() -> Seq<char> {
    seq!['t', 'e', 'x', 't', '/', 'p', 'l', 'a', 'i', 'n']
}

pub open spec fn nonblank(o: Option<Seq<char>>) -> Option<Seq<char>> {
    match o {
        None => None,
        Some(b) => if trim_of(b).len() > 0 {
            Some(trim_of(b))
        } else {
            None
        },
    }
}

/// The text of a message: the first `text/plain` part that is not blank,
/// trimmed; else the whole body, trimmed, if not blank. A `text/plain` part
/// whose body cannot be decoded leaves the message without text.
pub open spec fn body_choice(parts: Seq<MimePart>, whole: Option<Seq<char>>) -> Option<Seq<char>>
    decreases parts.len(),
{
    if parts.len() == 0 {
        nonblank(whole)
    } else if eq_ignore_ascii_case(parts[0].mimetype@, text_plain_lit()) {
        match parts[0].body {
            None => None,
            Some(b) => if trim_of(b@).len() > 0 {
                Some(trim_of(b@))
            } else {
                body_choice(parts.drop_first(), whole)
            },
        }
    } else {
        body_choice(parts.drop_first(), whole)
    }
}

/// Picks the sender address of a `From` header.
pub fn choose_sender(addrs: &Vec<MailAddress>) -> (r: Option<String>)
    ensures
        crate::thread_meta::opt_view(r) == sender_choice(addrs@),
{
    let n = addrs.len();
    let mut i: usize = 0;
    assert(addrs@.subrange(0, n as int) =~= addrs@);
    while i < n
        invariant
            n == addrs@.len(),
            0 <= i <= n,
            sender_choice(addrs@) == sender_choice(addrs@.subrange(i as int, n as int)),
        decreases n - i,
    {
        assert(addrs@.subrange(i as int, n as int).drop_first() =~= addrs@.subrange(
            i + 1,
            n as int,
        ));
        assert(addrs@.subrange(i as int, n as int)[0] == addrs@[i as int]);
        match &addrs[i] {
            MailAddress::Single(a) => {
                return Some(a.clone());
            },
            MailAddress::Group(g) => {
                if g.len() > 0 {
                    return Some(g[0].clone());
                }
            },
        }
        i = i + 1;
    }
    None
}

fn nonblank_trimmed(b: &str) -> (r: Option<String>)
    ensures
        crate::thread_meta::opt_view(r) == nonblank(Some(b@)),
{
    crate::address::nonempty_text(trim(b))
}

/// Picks the text of a message from its sub-parts and its whole body (`None`
/// where the whole body could not be decoded).
pub fn choose_text_body(parts: &Vec<MimePart>, whole: Option<String>) -> (r: Option<String>)
    ensures
        crate::thread_meta::opt_view(r) == body_choice(parts@, crate::thread_meta::opt_view(whole)),
{
    let n = parts.len();
    let mut i: usize = 0;
    assert(parts@.subrange(0, n as int) =~= parts@);
    proof {
        reveal_strlit("text/plain");
    }
    assert("text/plain"@ =~= text_plain_lit());
    while i < n
        invariant
            n == parts@.len(),
            0 <= i <= n,
            "text/plain"@ == text_plain_lit(),
            body_choice(parts@, crate::thread_meta::opt_view(whole)) == body_choice(
                parts@.subrange(i as int, n as int),
                crate::thread_meta::opt_view(whole),
            ),
        decreases n - i,
    {
        assert(parts@.subrange(i as int, n as int).drop_first() =~= parts@.subrange(
            i + 1,
            n as int,
        ));
        assert(parts@.subrange(i as int, n as int)[0] == parts@[i as int]);
        let part = &parts[i];
        if str_eq_ignore_ascii_case(part.mimetype.as_str(), "text/plain") {
            match &part.body {
                None => {
                    return None;
                },
                Some(b) => {
                    let t = nonblank_trimmed(b.as_str());
                    if t.is_some() {
                        return t;
                    }
                },
            }
        }
        i = i + 1;
    }
    match whole {
        None => None,
        Some(w) => nonblank_trimmed(w.as_str()),
    }
}

/// The deduplication key of a message.
pub fn message_key(m: &InboundEmail) -> (r: String)
    ensures
        r@ == key_of(*m),
{
    match EmailChannel::encode_thread_meta(&m.thread) {
        None => m.uid.clone(),
        Some(meta) => {
            let mut id = m.uid.clone();
            id.append(crate::thread_meta::EMAIL_REPLY_META_SEP);
            id.append(meta.as_str());
            proof {
                reveal_strlit("\u{1F}");
            }
            assert(crate::thread_meta::EMAIL_REPLY_META_SEP@ =~= seq![SEP]);
            assert(id@ =~= m.uid@ + seq![SEP] + encode_spec(m.thread@));
            id
        },
    }
}

/// The state of the inbound loop: the keys of the messages seen since the
/// process started. It only grows.
pub struct Listener {
    seen: Vec<String>,
}

impl Listener {
    pub closed spec fn seen_keys(&self) -> Set<Seq<char>> {
        self.seen@.map_values(|s: String| s@).to_set()
    }

    pub fn new() -> (r: Self)
        ensures
            r.seen_keys() == Set::<Seq<char>>::empty(),
    {
        let r = Listener { seen: Vec::new() };
        assert(r.seen_keys() =~= Set::<Seq<char>>::empty());
        r
    }

    /// Whether a key has been seen.
    pub fn has_seen(&self, key: &String) -> (r: bool)
        ensures
            r == self.seen_keys().contains(key@),
    {
        let n = self.seen.len();
        let mut i: usize = 0;
        while i < n
            invariant
                n == self.seen@.len(),
                0 <= i <= n,
                forall|j: int| 0 <= j < i ==> self.seen@[j]@ != key@,
            decreases n - i,
        {
            if self.seen[i] == *key {
                assert(self.seen@.map_values(|s: String| s@)[i as int] == key@);
                return true;
            }
            i = i + 1;
        }
        assert(!self.seen_keys().contains(key@)) by {
            let v = self.seen@.map_values(|s: String| s@);
            assert forall|j: int| 0 <= j < v.len() implies v[j] != key@ by {
                assert(v[j] == self.seen@[j]@);
            }
            assert(!v.contains(key@));
        }
        false
    }

    /// Decides what becomes of one fetched message: it is recorded as seen,
    /// and goes to the bus if it is new and its sender is allowed.
    pub fn deliver(&mut self, channel: &EmailChannel, inbound: InboundEmail, timestamp: u64) -> (r:
        Option<ChannelMessage>)
        ensures
            ({
                let step = deliver_step(
                    old(self).seen_keys(),
                    key_of(inbound),
                    sender_allowed(channel.allow_list(), inbound.sender@),
                );
                &&& final(self).seen_keys() == step.0
                &&& r is Some == step.1
                &&& r matches Some(m) ==> {
                    &&& m.id@ == key_of(inbound)
                    &&& m.sender@ == inbound.sender@
                    &&& m.content@ == inbound.content@
                    &&& m.channel@ == email_lit()
                    &&& m.timestamp == timestamp
                }
            }),
    {
        let id = message_key(&inbound);
        if self.has_seen(&id) {
            assert(self.seen_keys().insert(id@) =~= self.seen_keys());
            return None;
        }
        let ghost old_seen = self.seen@;
        self.seen.push(id.clone());
        assert(self.seen@.map_values(|s: String| s@) =~= old_seen.map_values(|s: String| s@).push(
            id@,
        ));
        assert(self.seen_keys() =~= old(self).seen_keys().insert(id@)) by {
            old_seen.map_values(|s: String| s@).lemma_push_to_set_commute(id@);
            assert(old_seen.map_values(|s: String| s@).push(id@).to_set() =~= old_seen.map_values(
                |s: String| s@,
            ).to_set().insert(id@));
        }
        if !channel.is_sender_allowed(inbound.sender.as_str()) {
            return None;
        }
        proof {
            reveal_strlit("email");
        }
        Some(
            ChannelMessage {
                id,
                sender: inbound.sender,
                content: inbound.content,
                channel: String::from_str("email"),
                timestamp,
            },
        )
    }

    /// Handles the outcome of one poll cycle. A failed cycle hands nothing to
    /// the bus and leaves the state as it was; a complete batch is delivered
    /// message by message, in the order the server returned it.
    pub fn process_cycle(
        &mut self,
        channel: &EmailChannel,
        batch: Result<Vec<InboundEmail>, PollError>,
        timestamp: u64,
    ) -> (r: Vec<ChannelMessage>)
        ensures
            batch is Err ==> r@.len() == 0 && final(self).seen_keys() == old(self).seen_keys(),
            batch matches Ok(b) ==> ({
                let res = deliver_all(old(self).seen_keys(), batch_items(channel.allow_list(), b@));
                &&& final(self).seen_keys() == res.0
                &&& r@.map_values(|m: ChannelMessage| m.id@) == res.1
                &&& ({
                    let idx = delivered_index(
                        old(self).seen_keys(),
                        batch_items(channel.allow_list(), b@),
                    );
                    &&& r@.len() == idx.len()
                    &&& forall|i: int|
                        0 <= i < idx.len() ==> 0 <= #[trigger] idx[i] < b@.len() && message_from(
                            r@[i],
                            b@[idx[i]],
                            timestamp,
                        )
                    &&& forall|i: int, j: int| 0 <= i < j < idx.len() ==> idx[i] < idx[j]
                })
            }),
    {
        let mut out: Vec<ChannelMessage> = Vec::new();
        match batch {
            Err(_) => out,
            Ok(b) => {
                let ghost items = batch_items(channel.allow_list(), b@);
                let ghost start = self.seen_keys();
                let n = b.len();
                let mut rest = b;
                let mut i: usize = 0;
                let ghost all = rest@;
                assert(items.subrange(0, 0) =~= seq![]);
                while i < n
                    invariant
                        n == all.len(),
                        0 <= i <= n,
                        items == batch_items(channel.allow_list(), all),
                        rest@ =~= all.subrange(i as int, n as int),
                        ({
                            let res = deliver_all(start, items.subrange(0, i as int));
                            &&& self.seen_keys() == res.0
                            &&& out@.map_values(|m: ChannelMessage| m.id@) == res.1
                        }),
                        ({
                            let idx = delivered_index(start, items.subrange(0, i as int));
                            &&& out@.len() == idx.len()
                            &&& forall|k: int|
                                0 <= k < idx.len() ==> 0 <= #[trigger] idx[k] < i && message_from(
                                    out@[k],
                                    all[idx[k]],
                                    timestamp,
                                )
                            &&& forall|k: int, j: int| 0 <= k < j < idx.len() ==> idx[k] < idx[j]
                        }),
                    decreases n - i,
                {
                    let m = rest.remove(0);
                    assert(m == all[i as int]);
                    assert(items.subrange(0, i + 1).drop_last() =~= items.subrange(0, i as int));
                    let ghost before = out@;
                    let ghost em = m;
                    assert(items.subrange(0, i + 1).len() - 1 == i);
                    assert(items.subrange(0, i + 1).last() == items[i as int]);
                    let d = self.deliver(channel, m, timestamp);
                    match d {
                        Some(msg) => {
                            out.push(msg);
                            assert(out@.map_values(|m: ChannelMessage| m.id@) =~= before.map_values(
                                |m: ChannelMessage| m.id@,
                            ).push(items[i as int].0));
                        },
                        None => {},
                    }
                    i = i + 1;
                }
                assert(items.subrange(0, n as int) =~= items);
                out
            },
        }
    }
}

} // verus!
