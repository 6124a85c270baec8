//! A whole streamed reply, read chunk by chunk: the events a chat or a pull
//! sends to the frontend. A reply is any number of items (tokens, or pull
//! progress) followed by exactly one terminal event, done or failed; nothing
//! follows the terminal event, and how the body was cut into chunks does not
//! change what is sent.

use vstd::prelude::*;

use crate::model::{
    chat_line, complete_lines, first_newline, lemma_chunking_is_invisible, lemma_first_newline,
    partial_line, pull_line, read_chat_line, read_pull_line, LineFramer, PullProgress,
    StreamEnd, StreamEndView,
};
use crate::text::utf8_lossy;

verus! {

/// An event of a reply: an item, then the reply is done, or the reply failed.
pub enum ReplyEvent<T> {
    Item(T),
    Done,
    Failed(Seq<char>),
}

/// How one line is read: the item it carries, if any, and how the reply goes on.
pub type LineRead<T> = spec_fn(Seq<char>) -> (Option<T>, StreamEndView);

/// The events of an item, if there is one.
pub open spec fn item_events<T>(item: Option<T>) -> Seq<ReplyEvent<T>> {
    match item {
        Some(t) => seq![ReplyEvent::Item(t)],
        None => Seq::empty(),
    }
}

/// The events of `lines`, read in order up to the first that ends the reply,
/// and whether one did.
pub open spec fn reply_events<T>(lines: Seq<Seq<char>>, read: LineRead<T>) -> (
    Seq<ReplyEvent<T>>,
    bool,
)
    decreases lines.len(),
{
    if lines.len() == 0 {
        (Seq::empty(), false)
    } else {
        let head = item_events(read(lines[0]).0);
        match read(lines[0]).1 {
            StreamEndView::Continue => {
                let rest = reply_events(lines.drop_first(), read);
                (head + rest.0, rest.1)
            },
            StreamEndView::Done => (head.push(ReplyEvent::Done), true),
            StreamEndView::Failed(m) => (head.push(ReplyEvent::Failed(m)), true),
        }
    }
}

/// The events of a whole reply body `text`: those of its complete lines, and
/// `Done` when the body ends without a line having ended the reply.
pub open spec fn whole_reply<T>(text: Seq<char>, read: LineRead<T>) -> Seq<ReplyEvent<T>> {
    let r = reply_events(complete_lines(text), read);
    if r.1 {
        r.0
    } else {
        r.0.push(ReplyEvent::Done)
    }
}

/// The chunks of a body, joined.
pub open spec fn join(chunks: Seq<Seq<char>>) -> Seq<char>
    decreases chunks.len(),
{
    if chunks.len() == 0 {
        Seq::empty()
    } else {
        chunks[0] + join(chunks.drop_first())
    }
}

/// The events sent while a reply arrives as `chunks`, from a reader holding
/// `pending` text and having `ended` or not: each chunk's complete lines are
/// read as it arrives, nothing is read once the reply has ended, and the end
/// of the body sends `Done` if nothing ended the reply.
pub open spec fn reply_run<T>(
    pending: Seq<char>,
    ended: bool,
    chunks: Seq<Seq<char>>,
    read: LineRead<T>,
) -> Seq<ReplyEvent<T>>
    decreases chunks.len(),
{
    if ended {
        Seq::empty()
    } else if chunks.len() == 0 {
        seq![ReplyEvent::Done]
    } else {
        let all = pending + chunks[0];
        let r = reply_events(complete_lines(all), read);
        r.0 + reply_run(partial_line(all), r.1, chunks.drop_first(), read)
    }
}

/// Reading `a` then `b` is reading `a`, and then `b` unless `a` ended the reply.
pub proof fn lemma_reply_events_append<T>(a: Seq<Seq<char>>, b: Seq<Seq<char>>, read: LineRead<T>)
    ensures
        reply_events(a + b, read) == (if reply_events(a, read).1 {
            reply_events(a, read)
        } else {
            (reply_events(a, read).0 + reply_events(b, read).0, reply_events(b, read).1)
        }),
    decreases a.len(),
{
    if a.len() == 0 {
        assert(a + b == b);
        assert(reply_events(a, read).0 + reply_events(b, read).0 == reply_events(b, read).0);
    } else {
        assert((a + b)[0] == a[0]);
        assert((a + b).drop_first() == a.drop_first() + b);
        lemma_reply_events_append(a.drop_first(), b, read);
        let head = item_events(read(a[0]).0);
        let ra = reply_events(a.drop_first(), read);
        let rb = reply_events(b, read);
        assert(head + (ra.0 + rb.0) == (head + ra.0) + rb.0);
    }
}

/// The events of a single line.
pub proof fn lemma_reply_events_one<T>(x: Seq<char>, read: LineRead<T>)
    ensures
        reply_events(seq![x], read) == (match read(x).1 {
            StreamEndView::Continue => (item_events(read(x).0), false),
            StreamEndView::Done => (item_events(read(x).0).push(ReplyEvent::Done), true),
            StreamEndView::Failed(m) => (item_events(read(x).0).push(ReplyEvent::Failed(m)), true),
        }),
{
    assert(seq![x].drop_first() =~= Seq::<Seq<char>>::empty());
    assert(seq![x][0] == x);
    let e = reply_events(Seq::<Seq<char>>::empty(), read);
    assert(e == (Seq::<ReplyEvent<T>>::empty(), false));
    assert(item_events(read(x).0) + e.0 =~= item_events(read(x).0));
}

/// What is left after the complete lines holds no line feed.
pub proof fn lemma_partial_line_is_open(s: Seq<char>)
    ensures
        first_newline(partial_line(s)) is None,
    decreases s.len(),
{
    lemma_first_newline(s);
    match first_newline(s) {
        Some(k) => {
            lemma_partial_line_is_open(s.skip(k + 1));
        },
        None => {},
    }
}

/// How a reply is cut into chunks does not change what is sent: reading the
/// chunks as they arrive sends exactly the events of the whole body.
pub proof fn lemma_reply_chunking_is_invisible<T>(
    pending: Seq<char>,
    chunks: Seq<Seq<char>>,
    read: LineRead<T>,
)
    requires
        first_newline(pending) is None,
    ensures
        reply_run(pending, false, chunks, read) == whole_reply(pending + join(chunks), read),
    decreases chunks.len(),
{
    if chunks.len() == 0 {
        assert(pending + join(chunks) == pending);
        assert(complete_lines(pending) == Seq::<Seq<char>>::empty());
        assert(reply_events(Seq::<Seq<char>>::empty(), read).0 == Seq::<ReplyEvent<T>>::empty());
        assert(Seq::<ReplyEvent<T>>::empty().push(ReplyEvent::Done) == seq![ReplyEvent::<T>::Done]);
    } else {
        let x = chunks[0];
        let rest = join(chunks.drop_first());
        let all = pending + x;
        assert(pending + join(chunks) == all + rest);
        lemma_chunking_is_invisible(all, rest);
        let la = complete_lines(all);
        let lb = complete_lines(partial_line(all) + rest);
        lemma_reply_events_append(la, lb, read);
        let ra = reply_events(la, read);
        if ra.1 {
            assert(reply_run(partial_line(all), true, chunks.drop_first(), read) == Seq::<
                ReplyEvent<T>,
            >::empty());
            assert(ra.0 + Seq::<ReplyEvent<T>>::empty() == ra.0);
        } else {
            lemma_partial_line_is_open(all);
            lemma_reply_chunking_is_invisible(partial_line(all), chunks.drop_first(), read);
            let rb = reply_events(lb, read);
            if rb.1 {
            } else {
                assert((ra.0 + rb.0).push(ReplyEvent::Done) == ra.0 + rb.0.push(ReplyEvent::Done));
            }
        }
    }
}

/// The events of some lines are items, except that, when a line ended the
/// reply, the last is its terminal event.
pub proof fn lemma_reply_events_shape<T>(lines: Seq<Seq<char>>, read: LineRead<T>)
    ensures
        ({
            let r = reply_events(lines, read);
            &&& r.1 ==> r.0.len() >= 1 && !(r.0.last() is Item)
            &&& forall|i: int|
                0 <= i < r.0.len() && (!r.1 || i < r.0.len() - 1) ==> #[trigger] r.0[i] is Item
        }),
    decreases lines.len(),
{
    if lines.len() > 0 {
        lemma_reply_events_shape(lines.drop_first(), read);
        let head = item_events(read(lines[0]).0);
        let r = reply_events(lines, read);
        match read(lines[0]).1 {
            StreamEndView::Continue => {
                let rest = reply_events(lines.drop_first(), read);
                assert forall|i: int|
                    0 <= i < r.0.len() && (!r.1 || i < r.0.len() - 1) implies #[trigger] r.0[i] is Item by {
                    if i >= head.len() {
                        assert(r.0[i] == rest.0[i - head.len()]);
                    }
                }
            },
            _ => {},
        }
    }
}

/// A whole reply sends items, then exactly one terminal event, done or
/// failed, and nothing after it.
pub proof fn lemma_one_terminal_event<T>(text: Seq<char>, read: LineRead<T>)
    ensures
        whole_reply(text, read).len() >= 1,
        !(whole_reply(text, read).last() is Item),
        forall|i: int|
            0 <= i < whole_reply(text, read).len() - 1 ==> #[trigger] whole_reply(text, read)[i] is Item,
{
    lemma_reply_events_shape(complete_lines(text), read);
}

/// Every item sent is one that some line carries.
pub proof fn lemma_items_come_from_lines<T>(lines: Seq<Seq<char>>, read: LineRead<T>, i: int)
    requires
        0 <= i < reply_events(lines, read).0.len(),
        reply_events(lines, read).0[i] is Item,
    ensures
        exists|j: int|
            0 <= j < lines.len() && read(#[trigger] lines[j]).0 == Some(
                reply_events(lines, read).0[i]->Item_0,
            ),
    decreases lines.len(),
{
    let head = item_events(read(lines[0]).0);
    let r = reply_events(lines, read);
    if i < head.len() {
        assert(read(lines[0]).0 == Some(r.0[i]->Item_0));
    } else {
        match read(lines[0]).1 {
            StreamEndView::Continue => {
                let rest = reply_events(lines.drop_first(), read);
                assert(r.0[i] == rest.0[i - head.len()]);
                lemma_items_come_from_lines(lines.drop_first(), read, i - head.len());
                let j = choose|j: int|
                    0 <= j < lines.drop_first().len() && read(#[trigger] lines.drop_first()[j]).0
                        == Some(rest.0[i - head.len()]->Item_0);
                assert(lines[j + 1] == lines.drop_first()[j]);
            },
            _ => {
                assert(false);
            },
        }
    }
}

// ---------------------------------------------------------------------------
// Chat replies
// ---------------------------------------------------------------------------

/// How a chat line is read, for `model`.
pub open spec fn chat_read(model: Seq<char>) -> LineRead<Seq<char>> {
    |l: Seq<char>| (chat_line(l, model).token, chat_line(l, model).end)
}

/// Every token a chat reply sends is non-empty.
pub proof fn lemma_chat_tokens_non_empty(text: Seq<char>, model: Seq<char>, i: int)
    requires
        0 <= i < whole_reply(text, chat_read(model)).len(),
        whole_reply(text, chat_read(model))[i] matches ReplyEvent::Item(t),
    ensures
        whole_reply(text, chat_read(model))[i]->Item_0.len() > 0,
{
    let lines = complete_lines(text);
    let read = chat_read(model);
    let r = reply_events(lines, read);
    if i >= r.0.len() {
        assert(!r.1 && whole_reply(text, read)[i] == ReplyEvent::<Seq<char>>::Done);
    } else {
        assert(whole_reply(text, read)[i] == r.0[i]);
        lemma_items_come_from_lines(lines, read, i);
    }
}

/// An event sent to the frontend while a chat reply streams in.
pub enum ChatEvent {
    /// More of the answer.
    Token(String),
    /// The answer is complete.
    Done,
    /// The answer failed, with this message.
    Error(String),
}

impl View for ChatEvent {
    type V = ReplyEvent<Seq<char>>;

    open spec fn view(&self) -> ReplyEvent<Seq<char>> {
        match self {
            ChatEvent::Token(t) => ReplyEvent::Item(t@),
            ChatEvent::Done => ReplyEvent::Done,
            ChatEvent::Error(m) => ReplyEvent::Failed(m@),
        }
    }
}

/// The events of a list of chat events.
pub open spec fn chat_events_view(events: Seq<ChatEvent>) -> Seq<ReplyEvent<Seq<char>>> {
    events.map_values(|e: ChatEvent| e@)
}

/// Reads a chat reply as its chunks arrive.
pub struct ChatReader {
    lines: LineFramer,
    ended: bool,
}

impl View for ChatReader {
    /// The text of a line still arriving, and whether the reply has ended.
    type V = (Seq<char>, bool);

    closed spec fn view(&self) -> (Seq<char>, bool) {
        (self.lines@, self.ended)
    }
}

impl ChatReader {
    /// A reader that has received nothing.
    pub fn new() -> (r: ChatReader)
        ensures
            r@ == (Seq::<char>::empty(), false),
    {
        ChatReader { lines: LineFramer::new(), ended: false }
    }

    /// Whether the reply has ended.
    pub fn ended(&self) -> (b: bool)
        ensures
            b == self@.1,
    {
        self.ended
    }

    /// Takes in a chunk of the body and returns the events it sends: those of
    /// the lines it completes, up to and including the one that ends the
    /// reply. Once the reply has ended, chunks send nothing.
    pub fn feed(&mut self, bytes: &[u8], model: &str) -> (events: Vec<ChatEvent>)
        ensures
            old(self)@.1 ==> events@.len() == 0 && final(self)@ == old(self)@,
            !old(self)@.1 ==> ({
                let all = old(self)@.0 + utf8_lossy(bytes@);
                &&& (chat_events_view(events@), final(self)@.1) == reply_events(
                    complete_lines(all),
                    chat_read(model@),
                )
                &&& final(self)@.0 == partial_line(all)
            }),
    {
        let mut events: Vec<ChatEvent> = Vec::new();
        if self.ended {
            assert(chat_events_view(events@) =~= Seq::<ReplyEvent<Seq<char>>>::empty());
            return events;
        }
        let ghost all = old(self).lines@ + utf8_lossy(bytes@);
        self.lines.push_bytes(bytes);
        let lines = self.lines.take_lines();
        let ghost ls = lines.deep_view();
        let ghost read = chat_read(model@);
        let n = lines.len();
        let mut i: usize = 0;
        assert(ls.take(0) =~= Seq::<Seq<char>>::empty());
        while i < n
            invariant
                n == lines@.len(),
                ls == lines.deep_view(),
                read == chat_read(model@),
                i <= n,
                !self.ended,
                !old(self).ended,
                all == old(self).lines@ + utf8_lossy(bytes@),
                ls == complete_lines(all),
                self.lines@ == partial_line(all),
                (chat_events_view(events@), false) == reply_events(ls.take(i as int), read),
            decreases n - i,
        {
            let ghost x = ls[i as int];
            let ghost before = chat_events_view(events@);
            let step = read_chat_line(lines[i].as_str(), model);
            proof {
                assert(lines@[i as int]@ == x);
                assert(step@ == chat_line(x, model@));
                assert(read(x) == (step@.token, step@.end));
                assert(ls.take(i + 1) =~= ls.take(i as int) + seq![x]);
                lemma_reply_events_append(ls.take(i as int), seq![x], read);
                lemma_reply_events_one(x, read);
            }
            let tok = step.token;
            match tok {
                Some(t) => {
                    let ghost tv = t@;
                    events.push(ChatEvent::Token(t));
                    assert(chat_events_view(events@) =~= before.push(ReplyEvent::Item(tv)));
                },
                None => {},
            }
            let ghost mid = chat_events_view(events@);
            assert(mid =~= before + item_events(read(x).0));
            match step.end {
                StreamEnd::Continue => {},
                StreamEnd::Done => {
                    events.push(ChatEvent::Done);
                    self.ended = true;
                    assert(chat_events_view(events@) =~= mid.push(ReplyEvent::Done));
                    assert(before + item_events(read(x).0).push(ReplyEvent::Done) =~= mid.push(
                        ReplyEvent::Done,
                    ));
                    proof {
                        lemma_reply_events_append(ls.take(i + 1), ls.skip(i + 1), read);
                        assert(ls.take(i + 1) + ls.skip(i + 1) =~= ls);
                        assert(reply_events(ls.take(i + 1), read).1);
                        assert(reply_events(ls, read) == reply_events(ls.take(i + 1), read));
                        assert(reply_events(ls.take(i + 1), read).0 =~= chat_events_view(events@));
                    }
                    return events;
                },
                StreamEnd::Failed(m) => {
                    let ghost mv = m@;
                    events.push(ChatEvent::Error(m));
                    self.ended = true;
                    assert(chat_events_view(events@) =~= mid.push(ReplyEvent::Failed(mv)));
                    assert(before + item_events(read(x).0).push(ReplyEvent::Failed(mv)) =~= mid.push(
                        ReplyEvent::Failed(mv),
                    ));
                    proof {
                        lemma_reply_events_append(ls.take(i + 1), ls.skip(i + 1), read);
                        assert(ls.take(i + 1) + ls.skip(i + 1) =~= ls);
                        assert(reply_events(ls.take(i + 1), read).1);
                        assert(reply_events(ls, read) == reply_events(ls.take(i + 1), read));
                        assert(reply_events(ls.take(i + 1), read).0 =~= chat_events_view(events@));
                    }
                    return events;
                },
            }
            assert(before + (item_events(read(x).0) + Seq::<ReplyEvent<Seq<char>>>::empty())
                =~= mid);
            i = i + 1;
        }
        assert(ls.take(n as int) =~= ls);
        events
    }

    /// The body has ended: `Done`, unless the reply already ended.
    pub fn finish(&mut self) -> (event: Option<ChatEvent>)
        ensures
            final(self)@.1,
            final(self)@.0 == old(self)@.0,
            match event {
                Some(e) => !old(self)@.1 && e@ == ReplyEvent::<Seq<char>>::Done,
                None => old(self)@.1,
            },
    {
        if self.ended {
            None
        } else {
            self.ended = true;
            Some(ChatEvent::Done)
        }
    }
}

// ---------------------------------------------------------------------------
// Pulls
// ---------------------------------------------------------------------------

/// A progress record: the status text and the byte counts, when given.
pub type PullItem = (Seq<char>, Option<u64>, Option<u64>);

/// How a line of a pull's progress stream is read.
pub open spec fn pull_read() -> LineRead<PullItem> {
    |l: Seq<char>| (pull_line(l).progress, pull_line(l).end)
}

/// An event sent to the frontend while a pull streams in.
pub enum PullEvent {
    /// Progress of the download.
    Progress(PullProgress),
    /// The model is pulled.
    Done,
    /// The pull failed, with this message.
    Error(String),
}

impl View for PullEvent {
    type V = ReplyEvent<PullItem>;

    open spec fn view(&self) -> ReplyEvent<PullItem> {
        match self {
            PullEvent::Progress(p) => ReplyEvent::Item((p.status@, p.completed, p.total)),
            PullEvent::Done => ReplyEvent::Done,
            PullEvent::Error(m) => ReplyEvent::Failed(m@),
        }
    }
}

/// The events of a list of pull events.
pub open spec fn pull_events_view(events: Seq<PullEvent>) -> Seq<ReplyEvent<PullItem>> {
    events.map_values(|e: PullEvent| e@)
}

/// Reads a pull's progress stream as its chunks arrive.
pub struct PullReader {
    lines: LineFramer,
    ended: bool,
}

impl View for PullReader {
    /// The text of a line still arriving, and whether the reply has ended.
    type V = (Seq<char>, bool);

    closed spec fn view(&self) -> (Seq<char>, bool) {
        (self.lines@, self.ended)
    }
}

impl PullReader {
    /// A reader that has received nothing.
    pub fn new() -> (r: PullReader)
        ensures
            r@ == (Seq::<char>::empty(), false),
    {
        PullReader { lines: LineFramer::new(), ended: false }
    }

    /// Whether the reply has ended.
    pub fn ended(&self) -> (b: bool)
        ensures
            b == self@.1,
    {
        self.ended
    }

    /// Takes in a chunk of the body and returns the events it sends: those of
    /// the lines it completes, up to and including the one that ends the
    /// reply. Once the reply has ended, chunks send nothing.
    pub fn feed(&mut self, bytes: &[u8]) -> (events: Vec<PullEvent>)
        ensures
            old(self)@.1 ==> events@.len() == 0 && final(self)@ == old(self)@,
            !old(self)@.1 ==> ({
                let all = old(self)@.0 + utf8_lossy(bytes@);
                &&& (pull_events_view(events@), final(self)@.1) == reply_events(
                    complete_lines(all),
                    pull_read(),
                )
                &&& final(self)@.0 == partial_line(all)
            }),
    {
        let mut events: Vec<PullEvent> = Vec::new();
        if self.ended {
            assert(pull_events_view(events@) =~= Seq::<ReplyEvent<PullItem>>::empty());
            return events;
        }
        let ghost all = old(self).lines@ + utf8_lossy(bytes@);
        self.lines.push_bytes(bytes);
        let lines = self.lines.take_lines();
        let ghost ls = lines.deep_view();
        let ghost read = pull_read();
        let n = lines.len();
        let mut i: usize = 0;
        assert(ls.take(0) =~= Seq::<Seq<char>>::empty());
        while i < n
            invariant
                n == lines@.len(),
                ls == lines.deep_view(),
                read == pull_read(),
                i <= n,
                !self.ended,
                !old(self).ended,
                all == old(self).lines@ + utf8_lossy(bytes@),
                ls == complete_lines(all),
                self.lines@ == partial_line(all),
                (pull_events_view(events@), false) == reply_events(ls.take(i as int), read),
            decreases n - i,
        {
            let ghost x = ls[i as int];
            let ghost before = pull_events_view(events@);
            let step = read_pull_line(lines[i].as_str());
            proof {
                assert(lines@[i as int]@ == x);
                assert(step@ == pull_line(x));
                assert(read(x) == (step@.progress, step@.end));
                assert(ls.take(i + 1) =~= ls.take(i as int) + seq![x]);
                lemma_reply_events_append(ls.take(i as int), seq![x], read);
                lemma_reply_events_one(x, read);
            }
            let progress = step.progress;
            match progress {
                Some(p) => {
                    let ghost pv = (p.status@, p.completed, p.total);
                    events.push(PullEvent::Progress(p));
                    assert(pull_events_view(events@) =~= before.push(ReplyEvent::Item(pv)));
                },
                None => {},
            }
            let ghost mid = pull_events_view(events@);
            assert(mid =~= before + item_events(read(x).0));
            match step.end {
                StreamEnd::Continue => {},
                StreamEnd::Done => {
                    events.push(PullEvent::Done);
                    self.ended = true;
                    assert(pull_events_view(events@) =~= mid.push(ReplyEvent::Done));
                    assert(before + item_events(read(x).0).push(ReplyEvent::Done) =~= mid.push(
                        ReplyEvent::Done,
                    ));
                    proof {
                        lemma_reply_events_append(ls.take(i + 1), ls.skip(i + 1), read);
                        assert(ls.take(i + 1) + ls.skip(i + 1) =~= ls);
                        assert(reply_events(ls.take(i + 1), read).1);
                        assert(reply_events(ls, read) == reply_events(ls.take(i + 1), read));
                        assert(reply_events(ls.take(i + 1), read).0 =~= pull_events_view(events@));
                    }
                    return events;
                },
                StreamEnd::Failed(m) => {
                    let ghost mv = m@;
                    events.push(PullEvent::Error(m));
                    self.ended = true;
                    assert(pull_events_view(events@) =~= mid.push(ReplyEvent::Failed(mv)));
                    assert(before + item_events(read(x).0).push(ReplyEvent::Failed(mv)) =~= mid.push(
                        ReplyEvent::Failed(mv),
                    ));
                    proof {
                        lemma_reply_events_append(ls.take(i + 1), ls.skip(i + 1), read);
                        assert(ls.take(i + 1) + ls.skip(i + 1) =~= ls);
                        assert(reply_events(ls.take(i + 1), read).1);
                        assert(reply_events(ls, read) == reply_events(ls.take(i + 1), read));
                        assert(reply_events(ls.take(i + 1), read).0 =~= pull_events_view(events@));
                    }
                    return events;
                },
            }
            assert(before + (item_events(read(x).0) + Seq::<ReplyEvent<PullItem>>::empty())
                =~= mid);
            i = i + 1;
        }
        assert(ls.take(n as int) =~= ls);
        events
    }

    /// The body has ended: `Done`, unless the pull already ended.
    pub fn finish(&mut self) -> (event: Option<PullEvent>)
        ensures
            final(self)@.1,
            final(self)@.0 == old(self)@.0,
            match event {
                Some(e) => !old(self)@.1 && e@ == ReplyEvent::<PullItem>::Done,
                None => old(self)@.1,
            },
    {
        if self.ended {
            None
        } else {
            self.ended = true;
            Some(PullEvent::Done)
        }
    }
}

} // verus!
