//! The downloader's window state: the form, the download history and the worker.

use vstd::prelude::*;
use crate::output::{
    DownloadEvent, DownloadEventKind, DownloadId, DownloadWorker, EventKindView, EventView,
    JobView, Output, events_view,
};
use crate::widgets::{compact_path, spec_compact_path};
use crate::state::{CardView, DownloadCardState, DownloadStatus, StatusView, TextInputState};

verus! {

/// The values of a sequence of cards.
pub open spec fn cards_view(cards: Seq<DownloadCardState>) -> Seq<CardView> {
    cards.map_values(|c: DownloadCardState| c@)
}

/// Card identifiers strictly increase along the history and stay below `next_id`.
pub open spec fn ids_well_ordered(cards: Seq<CardView>, next_id: DownloadId) -> bool {
    &&& forall|i: int, j: int| 0 <= i < j < cards.len() ==> cards[i].id < cards[j].id
    &&& forall|i: int| 0 <= i < cards.len() ==> cards[i].id < next_id
}

/// A card after an event about it.
pub open spec fn card_after(card: CardView, kind: EventKindView) -> CardView {
    match kind {
        EventKindView::FileNameResolved(name) => CardView { filename: name, ..card },
        EventKindView::Completed => CardView { status: StatusView::Completed, ..card },
        EventKindView::Failed(error) => CardView { status: StatusView::Failed(error), ..card },
    }
}

/// The history after one event: the card with the event's identifier is updated; an
/// event for no card changes nothing.
pub open spec fn apply_event(cards: Seq<CardView>, event: EventView) -> Seq<CardView> {
    Seq::new(
        cards.len(),
        |j: int|
            if cards[j].id == event.id {
                card_after(cards[j], event.kind)
            } else {
                cards[j]
            },
    )
}

/// The history after a sequence of events, applied in order.
pub open spec fn apply_all(cards: Seq<CardView>, events: Seq<EventView>) -> Seq<CardView>
    decreases events.len(),
{
    if events.len() == 0 {
        cards
    } else {
        apply_event(apply_all(cards, events.drop_last()), events.last())
    }
}

/// A card that a removal drops: a finished one, with identifier `only` when that is given.
pub open spec fn is_removed(card: CardView, only: Option<DownloadId>) -> bool {
    &&& card.status.is_finished()
    &&& (only matches Some(id) ==> card.id == id)
}

/// The history without the cards that a removal drops, in the same order.
pub open spec fn remove_finished_spec(cards: Seq<CardView>, only: Option<DownloadId>) -> Seq<CardView> {
    cards.filter(|c: CardView| !is_removed(c, only))
}

/// A file-name event renames the card with its identifier and changes no status; a
/// `Completed` or `Failed` event sets the status of that card and changes no file name;
/// every other card stays as it is.
pub proof fn law_event_effects(cards: Seq<CardView>, event: EventView)
    ensures
        apply_event(cards, event).len() == cards.len(),
        forall|j: int|
            0 <= j < cards.len() && cards[j].id != event.id ==> #[trigger] apply_event(cards, event)[j]
                == cards[j],
        forall|j: int|
            0 <= j < cards.len() && cards[j].id == event.id ==> {
                let after = #[trigger] apply_event(cards, event)[j];
                &&& after.id == cards[j].id
                &&& match event.kind {
                    EventKindView::FileNameResolved(name) => after.filename == name
                        && after.status == cards[j].status,
                    EventKindView::Completed => after.filename == cards[j].filename
                        && after.status == StatusView::Completed,
                    EventKindView::Failed(error) => after.filename == cards[j].filename
                        && after.status == StatusView::Failed(error),
                }
            },
{
}

/// Events that only resolve file names leave every status as it was.
pub proof fn law_file_name_events_keep_statuses(cards: Seq<CardView>, events: Seq<EventView>)
    requires
        forall|k: int| 0 <= k < events.len() ==> #[trigger] events[k].kind is FileNameResolved,
    ensures
        apply_all(cards, events).len() == cards.len(),
        forall|j: int| 0 <= j < cards.len() ==> #[trigger] apply_all(cards, events)[j].status == cards[j].status,
    decreases events.len(),
{
    if events.len() > 0 {
        law_file_name_events_keep_statuses(cards, events.drop_last());
        let before = apply_all(cards, events.drop_last());
        assert(events.last().kind is FileNameResolved);
        assert forall|j: int| 0 <= j < cards.len() implies #[trigger] apply_all(cards, events)[j].status == cards[j].status by {
            assert(apply_all(cards, events)[j] == apply_event(before, events.last())[j]);
            assert(before[j].status == cards[j].status);
        }
    }
}

/// Clearing leaves only downloads that are still running: no `Completed` or `Failed`
/// card remains, and every running card remains.
pub proof fn law_clear_keeps_only_running(cards: Seq<CardView>)
    ensures
        forall|c: CardView| #[trigger] remove_finished_spec(cards, None).contains(c) ==> c.status
            == StatusView::Downloading && cards.contains(c),
        forall|c: CardView| #[trigger] cards.contains(c) && c.status == StatusView::Downloading
            ==> remove_finished_spec(cards, None).contains(c),
{
    law_removal_keeps_the_rest(cards, None);
}

/// Dismissing `id` removes every card with that identifier whose download has ended,
/// `Completed` or `Failed`, and keeps every other card.
pub proof fn law_dismiss_removes_ended_card(cards: Seq<CardView>, id: DownloadId)
    ensures
        forall|c: CardView|
            #[trigger] remove_finished_spec(cards, Some(id)).contains(c) ==> cards.contains(c) && !(
            c.id == id && (c.status == StatusView::Completed || c.status is Failed)),
        forall|c: CardView|
            #[trigger] cards.contains(c) && (c.id != id || c.status == StatusView::Downloading)
                ==> remove_finished_spec(cards, Some(id)).contains(c),
{
    law_removal_keeps_the_rest(cards, Some(id));
}

/// In a well-ordered history no two cards share an identifier, and the next identifier
/// belongs to no card.
pub proof fn law_card_ids_unique(cards: Seq<CardView>, next_id: DownloadId)
    requires
        ids_well_ordered(cards, next_id),
    ensures
        forall|i: int, j: int|
            0 <= i < cards.len() && 0 <= j < cards.len() && i != j ==> cards[i].id != cards[j].id,
        forall|i: int| 0 <= i < cards.len() ==> cards[i].id != next_id,
{
    assert forall|i: int, j: int|
        0 <= i < cards.len() && 0 <= j < cards.len() && i != j implies cards[i].id != cards[j].id by {
        if i < j {
            assert(cards[i].id < cards[j].id);
        } else {
            assert(cards[j].id < cards[i].id);
        }
    }
}

/// Events change no identifier and add or drop no card.
pub proof fn law_events_keep_ids(cards: Seq<CardView>, events: Seq<EventView>)
    ensures
        apply_all(cards, events).len() == cards.len(),
        forall|i: int| 0 <= i < cards.len() ==> #[trigger] apply_all(cards, events)[i].id == cards[i].id,
    decreases events.len(),
{
    if events.len() > 0 {
        law_events_keep_ids(cards, events.drop_last());
    }
}

/// An event whose identifier belongs to no card changes nothing.
pub proof fn law_unknown_event_ignored(cards: Seq<CardView>, event: EventView)
    requires
        forall|i: int| 0 <= i < cards.len() ==> cards[i].id != event.id,
    ensures
        apply_event(cards, event) == cards,
{
    assert(apply_event(cards, event) =~= cards);
}

/// A removal keeps, in order, exactly the cards it does not drop: every card still
/// downloading stays, and a dismissal of `id` keeps every card with another identifier.
pub proof fn law_removal_keeps_the_rest(cards: Seq<CardView>, only: Option<DownloadId>)
    ensures
        forall|c: CardView| #[trigger] cards.contains(c) ==> (remove_finished_spec(cards, only).contains(c) <==> !is_removed(c, only)),
        forall|c: CardView| #[trigger] remove_finished_spec(cards, only).contains(c) ==> cards.contains(c) && !is_removed(c, only),
        forall|c: CardView| #[trigger] cards.contains(c) && !c.status.is_finished() ==> remove_finished_spec(cards, only).contains(c),
        forall|c: CardView| #[trigger] cards.contains(c) && (only matches Some(id) && c.id != id) ==> remove_finished_spec(cards, only).contains(c),
{
    let keep = |c: CardView| !is_removed(c, only);
    assert forall|c: CardView| #[trigger] cards.contains(c) implies (remove_finished_spec(cards, only).contains(c) <==> !is_removed(c, only)) by {
        let i = choose|i: int| 0 <= i < cards.len() && cards[i] == c;
        if keep(c) {
            cards.lemma_filter_contains(keep, i);
        } else if cards.filter(keep).contains(c) {
            let j = choose|j: int| 0 <= j < cards.filter(keep).len() && cards.filter(keep)[j] == c;
            cards.lemma_filter_pred(keep, j);
        }
    }
    assert forall|c: CardView| #[trigger] remove_finished_spec(cards, only).contains(c) implies cards.contains(c) && !is_removed(c, only) by {
        cards.lemma_filter_contains_rev(keep, c);
        let j = choose|j: int| 0 <= j < cards.filter(keep).len() && cards.filter(keep)[j] == c;
        cards.lemma_filter_pred(keep, j);
    }
}

/// The main window's state: the form, the history of submitted downloads, and the sink
/// that carries the downloads out.
/// A call that the window made on its sink.
pub enum SinkCall {
    /// `handle_submission(pin_url, directory_path, id)`.
    Submission { pin_url: Seq<char>, directory_path: Seq<char>, id: DownloadId },
    /// `drain_events`, which handed out `events`.
    Drain { events: Seq<EventView> },
    /// The sink was handed out for other use (`output_mut`).
    Handed,
}

/// `sinks` are the states of a sink through `calls`: `sinks[i + 1]` is what `sinks[i]`
/// becomes through `calls[i]`.
pub open spec fn is_sink_trace<O: Output>(sinks: Seq<O>, calls: Seq<SinkCall>) -> bool {
    &&& sinks.len() == calls.len() + 1
    &&& forall|i: int| 0 <= i < calls.len() ==> sink_step(sinks[i], sinks[i + 1], #[trigger] calls[i])
}

/// `to` is what the sink `from` becomes through `calls`, in order, each as the sink
/// says (`received`, `drained`); after a `Handed` the sink may be anything.
pub open spec fn replays<O: Output>(from: O, to: O, calls: Seq<SinkCall>) -> bool {
    exists|sinks: Seq<O>|
        #[trigger] is_sink_trace(sinks, calls) && sinks[0] == from && sinks.last() == to
}

/// `to` is what the sink `from` becomes through one call.
pub open spec fn sink_step<O: Output>(from: O, to: O, call: SinkCall) -> bool {
    match call {
        SinkCall::Submission { pin_url, directory_path, id } => O::received(
            &from,
            &to,
            pin_url,
            directory_path,
            id,
        ),
        SinkCall::Drain { events } => O::drained(&from, &to, events),
        SinkCall::Handed => true,
    }
}

/// A sink through no call is the sink itself: a window made with a sink and handed
/// back before any call on it hands back that very sink.
pub proof fn law_replay_without_calls<O: Output>(from: O, to: O)
    requires
        replays(from, to, Seq::<SinkCall>::empty()),
    ensures
        to == from,
{
    let sinks = choose|sinks: Seq<O>|
        #[trigger] is_sink_trace(sinks, Seq::<SinkCall>::empty()) && sinks[0] == from && sinks.last() == to;
}

/// The submissions a well-formed window has made carry the identifiers 1, 2, ..., in
/// order, one less than the next identifier in number, so none is ever reused.
pub proof fn law_submission_ids<O: Output>(app: DownloaderApp<O>)
    requires
        app.wf(),
    ensures
        submitted_ids(app.sink_calls()) == Seq::new(
            (app.next_id() - 1) as nat,
            |i: int| (i + 1) as DownloadId,
        ),
{
    assert(submitted_ids(app.sink_calls()) =~= Seq::new(
        (app.next_id() - 1) as nat,
        |i: int| (i + 1) as DownloadId,
    ));
}

/// One more call extends a replay.
proof fn lemma_replays_push<O: Output>(from: O, mid: O, to: O, calls: Seq<SinkCall>, call: SinkCall)
    requires
        replays(from, mid, calls),
        sink_step(mid, to, call),
    ensures
        replays(from, to, calls.push(call)),
        submitted_ids(calls.push(call)) == match call {
            SinkCall::Submission { id, .. } => submitted_ids(calls).push(id),
            _ => submitted_ids(calls),
        },
{
    let sinks = choose|sinks: Seq<O>|
        #[trigger] is_sink_trace(sinks, calls) && sinks[0] == from && sinks.last() == mid;
    let longer = sinks.push(to);
    let c2 = calls.push(call);
    assert forall|i: int| 0 <= i < c2.len() implies sink_step(longer[i], longer[i + 1], #[trigger] c2[i]) by {
        if i < calls.len() {
            assert(c2[i] == calls[i]);
        }
    }
    assert(is_sink_trace(longer, c2));
    assert(calls.push(call).drop_last() =~= calls);
    assert(calls.push(call).last() == call);
}

/// The identifiers of the submissions among `calls`, in order.
pub open spec fn submitted_ids(calls: Seq<SinkCall>) -> Seq<DownloadId>
    decreases calls.len(),
{
    if calls.len() == 0 {
        Seq::empty()
    } else {
        let rest = submitted_ids(calls.drop_last());
        match calls.last() {
            SinkCall::Submission { id, .. } => rest.push(id),
            _ => rest,
        }
    }
}

pub struct DownloaderApp<O = DownloadWorker> {
    state: TextInputState,
    output: O,
    downloads: Vec<DownloadCardState>,
    next_download_id: DownloadId,
    origin: Ghost<O>,
    calls: Ghost<Seq<SinkCall>>,
}

impl<O: Output> DownloaderApp<O> {
    /// The download history, oldest first.
    pub closed spec fn cards(&self) -> Seq<CardView> {
        cards_view(self.downloads@)
    }

    /// The identifier the next submission gets.
    pub closed spec fn next_id(&self) -> DownloadId {
        self.next_download_id
    }

    /// The form.
    pub closed spec fn form(&self) -> TextInputState {
        self.state
    }

    /// The sink that receives the submissions.
    pub closed spec fn sink(&self) -> O {
        self.output
    }

    /// The sink the window was made with.
    pub closed spec fn origin(&self) -> O {
        self.origin@
    }

    /// The calls the window has made on its sink, oldest first.
    pub closed spec fn sink_calls(&self) -> Seq<SinkCall> {
        self.calls@
    }

    /// The identifiers of the history are ordered and fresh ones remain; the sink is
    /// the one the window was made with after the calls made on it; the submissions
    /// carry the identifiers 1, 2, 3, ... in order, and the next one is the next.
    pub open spec fn wf(&self) -> bool {
        &&& ids_well_ordered(self.cards(), self.next_id())
        &&& self.next_id() >= 1
        &&& replays(self.origin(), self.sink(), self.sink_calls())
        &&& submitted_ids(self.sink_calls()).len() + 1 == self.next_id()
        &&& forall|i: int|
            0 <= i < submitted_ids(self.sink_calls()).len() ==> #[trigger] submitted_ids(
                self.sink_calls(),
            )[i] == i + 1
    }
}

impl<O: Output> DownloaderApp<O> {
    /// An empty window whose submissions go to `output`.
    pub fn with_output(output: O) -> (app: Self)
        ensures
            app.wf(),
            app.cards() == Seq::<CardView>::empty(),
            app.next_id() == 1,
            app.form().spec_url() == Seq::<char>::empty(),
            app.form().spec_directory_path() == Seq::<char>::empty(),
            app.sink() == output,
            app.origin() == output,
            app.sink_calls() == Seq::<SinkCall>::empty(),
    {
        let ghost o = output;
        let app = DownloaderApp {
            state: TextInputState::new(),
            output,
            downloads: Vec::new(),
            next_download_id: 1,
            origin: Ghost(o),
            calls: Ghost(Seq::empty()),
        };
        assert(is_sink_trace(seq![o], Seq::<SinkCall>::empty()));
        assert(app.cards() =~= Seq::<CardView>::empty());
        app
    }

    /// The form.
    pub fn state(&self) -> (state: &TextInputState)
        ensures
            *state == self.form(),
    {
        &self.state
    }

    /// The form, for editing.
    pub fn state_mut(&mut self) -> (state: &mut TextInputState)
        ensures
            *state == old(self).form(),
            final(self).form() == *final(state),
            final(self).cards() == old(self).cards(),
            final(self).next_id() == old(self).next_id(),
            final(self).sink() == old(self).sink(),
            final(self).origin() == old(self).origin(),
            final(self).sink_calls() == old(self).sink_calls(),
    {
        &mut self.state
    }

    /// The identifier the next submission gets.
    pub fn next_download_id(&self) -> (id: DownloadId)
        ensures
            id == self.next_id(),
    {
        self.next_download_id
    }

    /// The download history, oldest first.
    pub fn downloads(&self) -> (cards: &[DownloadCardState])
        ensures
            cards_view(cards@) == self.cards(),
    {
        self.downloads.as_slice()
    }

    /// Hands back the sink.
    pub fn into_output(self) -> (output: O)
        requires
            self.wf(),
        ensures
            output == self.sink(),
            replays(self.origin(), output, self.sink_calls()),
    {
        self.output
    }

    /// The label of the destination button: a prompt when no directory is chosen, else
    /// the directory shortened to 14 characters.
    pub fn destination_button_label(&self) -> (label: String)
        ensures
            label@ == (if self.form().spec_directory_path().len() == 0 {
                "Selecionar pasta"@
            } else {
                spec_compact_path(self.form().spec_directory_path(), 14)
            }),
    {
        let path = self.state.directory_path();
        if path.unicode_len() == 0 {
            String::from_str("Selecionar pasta")
        } else {
            compact_path(path, 14)
        }
    }

    /// Adds a card for the typed link, in state `Downloading` under the next identifier,
    /// and hands the link, the directory and that identifier to the sink.
    pub fn submit(&mut self)
        requires
            old(self).wf(),
            old(self).next_id() < u64::MAX,
        ensures
            final(self).wf(),
            final(self).next_id() == old(self).next_id() + 1,
            final(self).cards() == old(self).cards().push(
                CardView {
                    id: old(self).next_id(),
                    filename: "Preparando download..."@,
                    status: StatusView::Downloading,
                },
            ),
            final(self).form() == old(self).form(),
            O::received(
                &old(self).sink(),
                &final(self).sink(),
                old(self).form().spec_url(),
                old(self).form().spec_directory_path(),
                old(self).next_id(),
            ),
            final(self).origin() == old(self).origin(),
            final(self).sink_calls() == old(self).sink_calls().push(
                SinkCall::Submission {
                    pin_url: old(self).form().spec_url(),
                    directory_path: old(self).form().spec_directory_path(),
                    id: old(self).next_id(),
                },
            ),
    {
        let id = self.next_download_id;
        self.next_download_id = self.next_download_id + 1;
        let card = DownloadCardState::new(
            id,
            String::from_str("Preparando download..."),
            DownloadStatus::Downloading,
        );
        let ghost c = card@;
        self.downloads.push(card);
        assert(self.cards() =~= old(self).cards().push(c));
        let ghost before = self.output;
        let ghost call = SinkCall::Submission {
            pin_url: self.state.spec_url(),
            directory_path: self.state.spec_directory_path(),
            id,
        };
        self.output.handle_submission(self.state.url(), self.state.directory_path(), id);
        proof {
            lemma_replays_push(self.origin@, before, self.output, self.calls@, call);
        }
        self.calls = Ghost(self.calls@.push(call));
        proof {
            let ids = submitted_ids(self.calls@);
            let old_ids = submitted_ids(old(self).calls@);
            assert forall|i: int| 0 <= i < ids.len() implies #[trigger] ids[i] == i + 1 by {
                if i < old_ids.len() {
                    assert(ids[i] == old_ids[i]);
                }
            }
        }
    }

    /// Drops the finished cards (only the one with identifier `only`, when given).
    fn remove_finished(&mut self, only: Option<DownloadId>)
        requires
            old(self).wf(),
        ensures
            final(self).wf(),
            final(self).cards() == remove_finished_spec(old(self).cards(), only),
            final(self).next_id() == old(self).next_id(),
            final(self).form() == old(self).form(),
            final(self).sink() == old(self).sink(),
            final(self).origin() == old(self).origin(),
            final(self).sink_calls() == old(self).sink_calls(),
    {
        let mut old_cards: Vec<DownloadCardState> = Vec::new();
        std::mem::swap(&mut old_cards, &mut self.downloads);
        let ghost v = cards_view(old_cards@);
        let ghost keep = |c: CardView| !is_removed(c, only);
        let ghost next = self.next_download_id;
        let mut kept: Vec<DownloadCardState> = Vec::new();
        assert(v.take(0).filter(keep) =~= Seq::<CardView>::empty()) by {
            reveal_with_fuel(Seq::<_>::filter, 1);
        }
        for card in it: old_cards
            invariant
                v == cards_view(old_cards@),
                keep == (|c: CardView| !is_removed(c, only)),
                it.seq() == old_cards@,
                ids_well_ordered(v, next),
                cards_view(kept@) == v.take(it.index() as int).filter(keep),
                ids_well_ordered(cards_view(kept@), next),
                forall|a: int, b: int|
                    0 <= a < kept@.len() && it.index() <= b < v.len() ==> kept@[a]@.id < v[b].id,
        {
            let ghost i = it.index() as int;
            let ghost c = card@;
            assert(c == v[i]);
            let ghost before = kept@;
            let finished = card.status().is_finished();
            let matches_only = match only {
                Some(id) => card.id() == id,
                None => true,
            };
            if !(finished && matches_only) {
                assert(keep(c));
                kept.push(card);
                assert(cards_view(kept@) =~= cards_view(before).push(c));
            } else {
                assert(!keep(c));
            }
            assert(v.take(i + 1).drop_last() =~= v.take(i));
            assert(v.take(i + 1).filter(keep) == if keep(c) {
                v.take(i).filter(keep).push(c)
            } else {
                v.take(i).filter(keep)
            }) by {
                reveal_with_fuel(Seq::<_>::filter, 1);
                assert(v.take(i + 1).last() == c);
            }
        }
        assert(v.take(v.len() as int) =~= v);
        self.downloads = kept;
    }

    /// Applies the events in order: each updates the card with its identifier (the file
    /// name, or the status); an event for no card is ignored.
    pub fn apply_events(&mut self, events: Vec<DownloadEvent>)
        requires
            old(self).wf(),
        ensures
            final(self).wf(),
            final(self).cards() == apply_all(old(self).cards(), events_view(events@)),
            final(self).next_id() == old(self).next_id(),
            final(self).form() == old(self).form(),
            final(self).sink() == old(self).sink(),
            final(self).origin() == old(self).origin(),
            final(self).sink_calls() == old(self).sink_calls(),
    {
        let ghost start = self.cards();
        let ghost evs = events_view(events@);
        assert(evs.take(0) =~= Seq::<EventView>::empty());
        for event in it: events
            invariant
                evs == events_view(events@),
                it.seq() == events@,
                self.wf(),
                self.cards() == apply_all(start, evs.take(it.index() as int)),
                self.next_id() == old(self).next_id(),
                self.form() == old(self).form(),
                self.sink() == old(self).sink(),
                self.origin() == old(self).origin(),
                self.sink_calls() == old(self).sink_calls(),
        {
            let ghost k = it.index() as int;
            let ghost e = event@;
            assert(e == evs[k]);
            let ghost before = self.cards();
            let n = self.downloads.len();
            let mut i: usize = 0;
            while i < n && self.downloads[i].id() != event.id
                invariant
                    n == self.downloads@.len(),
                    i <= n,
                    self.cards() == before,
                    e.id == event.id,
                    forall|j: int| 0 <= j < i ==> before[j].id != e.id,
                decreases n - i,
            {
                assert(before[i as int] == self.downloads@[i as int]@);
                i = i + 1;
            }
            if i < n {
                assert(before[i as int] == self.downloads@[i as int]@);
                assert(before[i as int].id == e.id);
                assert forall|j: int| 0 <= j < before.len() && j != i implies before[j].id != e.id by {
                    if j < i {
                    } else {
                        assert(before[i as int].id < before[j].id);
                    }
                }
                let ghost ek = e.kind;
                match event.kind {
                    DownloadEventKind::FileNameResolved(name) => self.downloads[i].set_filename(name),
                    DownloadEventKind::Completed => self.downloads[i].set_status(DownloadStatus::Completed),
                    DownloadEventKind::Failed(error) => self.downloads[i].set_status(DownloadStatus::Failed(error)),
                }
                assert(self.cards()[i as int] == card_after(before[i as int], ek));
                assert forall|j: int| 0 <= j < before.len() && j != i implies self.cards()[j] == before[j] by {
                    assert(self.cards()[j] == self.downloads@[j]@);
                }
                assert(self.cards() =~= apply_event(before, e));
            } else {
                assert(self.cards() =~= apply_event(before, e));
            }
            assert(evs.take(k + 1).drop_last() =~= evs.take(k));
        }
        assert(evs.take(evs.len() as int) =~= evs);
    }

    /// Applies, in order, the events that the sink hands out.
    pub fn apply_download_events(&mut self)
        requires
            old(self).wf(),
        ensures
            final(self).wf(),
            exists|events: Seq<EventView>|
                {
                    &&& O::drained(&old(self).sink(), &final(self).sink(), events)
                    &&& final(self).cards() == apply_all(old(self).cards(), events)
                    &&& final(self).sink_calls() == old(self).sink_calls().push(
                        SinkCall::Drain { events },
                    )
                },
            final(self).origin() == old(self).origin(),
            final(self).next_id() == old(self).next_id(),
            final(self).form() == old(self).form(),
    {
        let events = self.output.drain_events();
        let ghost drained = events_view(events@);
        let ghost call = SinkCall::Drain { events: drained };
        proof {
            lemma_replays_push(self.origin@, old(self).output, self.output, self.calls@, call);
        }
        self.calls = Ghost(self.calls@.push(call));
        self.apply_events(events);
        assert(O::drained(&old(self).sink(), &self.sink(), drained));
    }

    /// Whether some download of the history is still running.
    pub fn has_active_downloads(&self) -> (active: bool)
        ensures
            active == exists|i: int|
                0 <= i < self.cards().len() && #[trigger] self.cards()[i].status == StatusView::Downloading,
    {
        let n = self.downloads.len();
        let mut i: usize = 0;
        while i < n
            invariant
                n == self.cards().len(),
                i <= n,
                forall|j: int| 0 <= j < i ==> #[trigger] self.cards()[j].status != StatusView::Downloading,
            decreases n - i,
        {
            assert(self.cards()[i as int] == self.downloads@[i as int]@);
            if !self.downloads[i].status().is_finished() {
                return true;
            }
            i = i + 1;
        }
        false
    }

    /// The sink, for the code that carries the downloads out.
    pub fn output_mut(&mut self) -> (output: &mut O)
        requires
            old(self).wf(),
        ensures
            final(self).wf(),
            *output == old(self).sink(),
            final(self).sink() == *final(output),
            final(self).origin() == old(self).origin(),
            final(self).sink_calls() == old(self).sink_calls().push(SinkCall::Handed),
            final(self).cards() == old(self).cards(),
            final(self).next_id() == old(self).next_id(),
            final(self).form() == old(self).form(),
    {
        proof {
            lemma_replays_push(self.origin@, self.output, self.output, self.calls@, SinkCall::Handed);
            assert forall|o: O| #[trigger] replays(self.origin@, o, self.calls@.push(SinkCall::Handed)) by {
                lemma_replays_push(self.origin@, self.output, o, self.calls@, SinkCall::Handed);
            }
        }
        self.calls = Ghost(self.calls@.push(SinkCall::Handed));
        &mut self.output
    }

    /// Removes the card with identifier `id` from the history if that download has
    /// ended; a card still downloading stays.
    pub fn dismiss_download(&mut self, id: DownloadId)
        requires
            old(self).wf(),
        ensures
            final(self).wf(),
            final(self).cards() == remove_finished_spec(old(self).cards(), Some(id)),
            final(self).next_id() == old(self).next_id(),
            final(self).form() == old(self).form(),
            final(self).sink() == old(self).sink(),
            final(self).origin() == old(self).origin(),
            final(self).sink_calls() == old(self).sink_calls(),
    {
        self.remove_finished(Some(id));
    }

    /// Removes every finished card from the history and keeps the active ones in order.
    pub fn clear_finished_downloads(&mut self)
        requires
            old(self).wf(),
        ensures
            final(self).wf(),
            final(self).cards() == remove_finished_spec(old(self).cards(), None),
            final(self).next_id() == old(self).next_id(),
            final(self).form() == old(self).form(),
            final(self).sink() == old(self).sink(),
            final(self).origin() == old(self).origin(),
            final(self).sink_calls() == old(self).sink_calls(),
    {
        self.remove_finished(None);
    }
}

impl DownloaderApp<DownloadWorker> {
    /// An empty window whose submissions go to a new download worker.
    pub fn new() -> (app: Self)
        ensures
            app.wf(),
            app.cards() == Seq::<CardView>::empty(),
            app.next_id() == 1,
            app.form().spec_url() == Seq::<char>::empty(),
            app.form().spec_directory_path() == Seq::<char>::empty(),
            app.sink().pending_jobs() == Seq::<JobView>::empty(),
            app.sink().pending_events() == Seq::<EventView>::empty(),
    {
        Self::with_output(DownloadWorker::default())
    }
}

impl Default for DownloaderApp<DownloadWorker> {
    /// An empty window whose submissions go to a new download worker.
    fn default() -> (app: Self)
        ensures
            app.wf(),
            app.cards() == Seq::<CardView>::empty(),
            app.next_id() == 1,
            app.form().spec_url() == Seq::<char>::empty(),
            app.form().spec_directory_path() == Seq::<char>::empty(),
            app.sink().pending_jobs() == Seq::<JobView>::empty(),
            app.sink().pending_events() == Seq::<EventView>::empty(),
    {
        Self::new()
    }
}

} // verus!
