//! Who gets which events, and what clients may ask for.
use vstd::prelude::*;

use crate::json::{member, parse_json, text_of, Json, JsonModel};
use crate::report::{text_items, Report, ReportModel};
use crate::text::{same_text, texts};

verus! {

/// How many events wait for a subscriber at most.
pub const SUBSCRIBER_QUEUE_MAX: usize = 10_000;

/// The events that a subscriber wants, or that an event is of.
#[derive(Debug, Clone, Copy, PartialEq, Eq, Structural)]
pub enum StreamFilter {
    All,
    Bbo,
    Book,
}

/// The events that a name stands for.
pub open spec fn filter_named(name: Seq<char>) -> StreamFilter {
    if name == "bbo"@ {
        StreamFilter::Bbo
    } else if name == "book"@ {
        StreamFilter::Book
    } else {
        StreamFilter::All
    }
}

/// The events that a name stands for.
pub fn stream_filter(name: &str) -> (r: StreamFilter)
    ensures
        r == filter_named(name@),
{
    if same_text(name, "bbo") {
        StreamFilter::Bbo
    } else if same_text(name, "book") {
        StreamFilter::Book
    } else {
        StreamFilter::All
    }
}

/// A subscriber, and what they want: which events, and of which symbols.
#[derive(Debug)]
pub struct Subscriber {
    id: u64,
    stream: StreamFilter,
    symbols: Option<Vec<String>>,
}

/// A subscriber, as mathematics. Without a list of symbols they want all.
pub struct SubscriberModel {
    pub id: u64,
    pub stream: StreamFilter,
    pub symbols: Option<Seq<Seq<char>>>,
}

impl View for Subscriber {
    type V = SubscriberModel;

    closed spec fn view(&self) -> SubscriberModel {
        SubscriberModel { id: self.id, stream: self.stream, symbols: text_list(self.symbols) }
    }
}

/// The texts of a list of strings, where there is a list.
pub open spec fn text_list(list: Option<Vec<String>>) -> Option<Seq<Seq<char>>> {
    match list {
        Some(list) => Some(texts(list@)),
        None => None,
    }
}

/// Whether a subscriber wants an event of a stream that concerns a symbol.
pub open spec fn wants(
    subscriber: SubscriberModel,
    stream: StreamFilter,
    symbol: Seq<char>,
) -> bool {
    &&& subscriber.stream == stream || subscriber.stream == StreamFilter::All
    &&& subscriber.symbols matches Some(symbols) ==> symbols.contains(symbol)
}

/// Who gets an event of a stream that concerns a symbol, in the order in which they came.
pub open spec fn recipients_of(
    subscribers: Seq<SubscriberModel>,
    stream: StreamFilter,
    symbol: Seq<char>,
) -> Seq<u64>
    decreases subscribers.len(),
{
    if subscribers.len() == 0 {
        Seq::empty()
    } else if wants(subscribers.last(), stream, symbol) {
        recipients_of(subscribers.drop_last(), stream, symbol).push(subscribers.last().id)
    } else {
        recipients_of(subscribers.drop_last(), stream, symbol)
    }
}

/// The subscribers without the one of that number.
pub open spec fn without(subscribers: Seq<SubscriberModel>, id: u64) -> Seq<SubscriberModel>
    decreases subscribers.len(),
{
    if subscribers.len() == 0 {
        Seq::empty()
    } else if subscribers.last().id == id {
        without(subscribers.drop_last(), id)
    } else {
        without(subscribers.drop_last(), id).push(subscribers.last())
    }
}

/// All subscribers, in the order in which they came.
#[derive(Debug)]
pub struct Subscribers {
    list: Vec<Subscriber>,
    next_id: u64,
}

impl View for Subscribers {
    type V = Seq<SubscriberModel>;

    closed spec fn view(&self) -> Seq<SubscriberModel> {
        self.list@.map_values(|subscriber: Subscriber| subscriber@)
    }
}

impl Subscribers {
    /// The number that the next subscriber gets.
    pub closed spec fn next_number(&self) -> u64 {
        self.next_id
    }

    /// Every number was given out once.
    pub open spec fn wf(&self) -> bool {
        &&& forall|i: int| 0 <= i < self@.len() ==> (#[trigger] self@[i]).id < self.next_number()
        &&& forall|i: int, j: int|
            0 <= i < j < self@.len() ==> (#[trigger] self@[i]).id != (#[trigger] self@[j]).id
    }

    /// Nobody.
    pub fn new() -> (r: Subscribers)
        ensures
            r.wf(),
            r@ == Seq::<SubscriberModel>::empty(),
            r.next_number() == 0,
    {
        let r = Subscribers { list: Vec::new(), next_id: 0 };
        assert(r@ =~= Seq::<SubscriberModel>::empty());
        r
    }

    /// How many subscribers there are.
    pub fn len(&self) -> (r: usize)
        ensures
            r == self@.len(),
    {
        self.list.len()
    }

    /// Whether there is a number left for another subscriber.
    pub fn has_room(&self) -> (r: bool)
        ensures
            r == (self.next_number() < u64::MAX),
    {
        self.next_id < u64::MAX
    }

    /// Who gets an event of a stream that concerns a symbol.
    pub fn recipients(&self, stream: StreamFilter, symbol: &str) -> (r: Vec<u64>)
        ensures
            r@ == recipients_of(self@, stream, symbol@),
    {
        let mut r: Vec<u64> = Vec::new();
        assert(self@.take(0) =~= Seq::<SubscriberModel>::empty());
        for i in 0..self.list.len()
            invariant
                self@.len() == self.list@.len(),
                r@ == recipients_of(self@.take(i as int), stream, symbol@),
        {
            assert(self@.take(i + 1).drop_last() =~= self@.take(i as int));
            assert(self@.take(i + 1).last() == self.list@[i as int]@);
            if self.list[i].accepts(stream, symbol) {
                r.push(self.list[i].id);
            }
        }
        assert(self@.take(self@.len() as int) =~= self@);
        r
    }
}

impl Subscriber {
    /// Whether they want an event of a stream that concerns a symbol.
    fn accepts(&self, stream: StreamFilter, symbol: &str) -> (r: bool)
        ensures
            r == wants(self@, stream, symbol@),
    {
        if self.stream != stream && self.stream != StreamFilter::All {
            return false;
        }
        match &self.symbols {
            Some(symbols) => {
                for i in 0..symbols.len()
                    invariant
                        self@.symbols == Some(texts(symbols@)),
                        self@.stream == stream || self@.stream == StreamFilter::All,
                        forall|j: int| 0 <= j < i ==> #[trigger] symbols@[j]@ != symbol@,
                {
                    if same_text(symbols[i].as_str(), symbol) {
                        assert(texts(symbols@)[i as int] == symbol@);
                        return true;
                    }
                }
                assert forall|j: int| 0 <= j < texts(symbols@).len() implies #[trigger] texts(
                    symbols@,
                )[j] != symbol@ by {
                    assert(symbols@[j]@ != symbol@);
                }
                false
            },
            None => true,
        }
    }
}

/// Adds a subscriber. `stream` names the events that they want; without `symbols` they
/// want those of all symbols. Gives the number by which the subscriber is known.
pub fn subscribe(
    subscribers: &mut Subscribers,
    stream: &str,
    symbols: Option<Vec<String>>,
) -> (r: u64)
    requires
        old(subscribers).wf(),
        old(subscribers).next_number() < u64::MAX,
    ensures
        final(subscribers).wf(),
        final(subscribers)@ == old(subscribers)@.push(
            SubscriberModel {
                id: r,
                stream: filter_named(stream@),
                symbols: text_list(symbols),
            },
        ),
        r == old(subscribers).next_number(),
        final(subscribers).next_number() == r + 1,
{
    let id: u64 = subscribers.next_id;
    let subscriber = Subscriber { id, stream: stream_filter(stream), symbols };
    let ghost m = subscriber@;
    subscribers.next_id = id + 1;
    subscribers.list.push(subscriber);
    assert(subscribers@ =~= old(subscribers)@.push(m));
    id
}

/// Removes a subscriber.
pub fn unsubscribe(subscribers: &mut Subscribers, id: u64)
    requires
        old(subscribers).wf(),
    ensures
        final(subscribers).wf(),
        final(subscribers)@ == without(old(subscribers)@, id),
        final(subscribers).next_number() == old(subscribers).next_number(),
{
    let ghost all = subscribers@;
    let n: usize = subscribers.list.len();
    for i in 0..n
        invariant
            n == all.len(),
            subscribers@ == all,
            all == old(subscribers)@,
            *subscribers == *old(subscribers),
            subscribers.wf(),
            all.len() == subscribers.list@.len(),
            forall|j: int| 0 <= j < i ==> (#[trigger] all[j]).id != id,
    {
        assert(all[i as int] == subscribers.list@[i as int]@);
        if subscribers.list[i].id == id {
            subscribers.list.remove(i);
            proof {
                assert(subscribers@ =~= all.remove(i as int));
                assert forall|j: int| 0 <= j < all.len() && j != i implies (#[trigger] all[j]).id
                    != id by {}
                lemma_without_one(all, i as int);
                assert forall|j: int| 0 <= j < subscribers@.len() implies (
                #[trigger] subscribers@[j]).id < subscribers.next_number() by {
                    assert(subscribers@[j] == all[if j < i { j } else { j + 1 }]);
                }
                assert forall|j: int, k: int| 0 <= j < k < subscribers@.len() implies (
                #[trigger] subscribers@[j]).id != (#[trigger] subscribers@[k]).id by {
                    assert(subscribers@[j] == all[if j < i { j } else { j + 1 }]);
                    assert(subscribers@[k] == all[if k < i { k } else { k + 1 }]);
                }
            }
            return;
        }
    }
    proof {
        lemma_without_none(all, id);
    }
}

proof fn lemma_without_none(subscribers: Seq<SubscriberModel>, id: u64)
    requires
        forall|i: int| 0 <= i < subscribers.len() ==> (#[trigger] subscribers[i]).id != id,
    ensures
        without(subscribers, id) == subscribers,
    decreases subscribers.len(),
{
    if subscribers.len() > 0 {
        let less = subscribers.drop_last();
        assert forall|i: int| 0 <= i < less.len() implies (#[trigger] less[i]).id != id by {
            assert(less[i] == subscribers[i]);
        }
        lemma_without_none(less, id);
        assert(subscribers =~= less.push(subscribers.last()));
    }
}

proof fn lemma_without_one(subscribers: Seq<SubscriberModel>, at: int)
    requires
        0 <= at < subscribers.len(),
        forall|i: int|
            0 <= i < subscribers.len() && i != at ==> (#[trigger] subscribers[i]).id
                != subscribers[at].id,
    ensures
        without(subscribers, subscribers[at].id) == subscribers.remove(at),
    decreases subscribers.len(),
{
    let id = subscribers[at].id;
    let less = subscribers.drop_last();
    if at == subscribers.len() - 1 {
        assert forall|i: int| 0 <= i < less.len() implies (#[trigger] less[i]).id != id by {
            assert(less[i] == subscribers[i]);
        }
        lemma_without_none(less, id);
        assert(subscribers.remove(at) =~= less);
    } else {
        assert forall|i: int| 0 <= i < less.len() && i != at implies (#[trigger] less[i]).id
            != less[at].id by {
            assert(less[i] == subscribers[i]);
        }
        lemma_without_one(less, at);
        assert(subscribers.last().id != id);
        assert(subscribers.remove(at) =~= less.remove(at).push(subscribers.last()));
    }
}

/// What is to be done about a text from a client.
#[derive(Debug)]
pub enum ClientAction {
    /// Nothing.
    Ignore,
    /// Send an answer.
    Answer(Report),
    /// Subscribe, and send an answer.
    Subscribe { stream: String, symbols: Option<Vec<String>>, answer: Report },
    /// End the subscription, and send an answer.
    Unsubscribe(Report),
}

/// What is to be done about a text from a client, as mathematics.
pub enum ClientModel {
    Ignore,
    Answer(ReportModel),
    Subscribe { stream: Seq<char>, symbols: Option<Seq<Seq<char>>>, answer: ReportModel },
    Unsubscribe(ReportModel),
}

impl View for ClientAction {
    type V = ClientModel;

    open spec fn view(&self) -> ClientModel {
        match self {
            ClientAction::Ignore => ClientModel::Ignore,
            ClientAction::Answer(answer) => ClientModel::Answer(answer.model()),
            ClientAction::Subscribe { stream, symbols, answer } => ClientModel::Subscribe {
                stream: stream@,
                symbols: text_list(*symbols),
                answer: answer.model(),
            },
            ClientAction::Unsubscribe(answer) => ClientModel::Unsubscribe(answer.model()),
        }
    }
}

/// The texts among some values.
pub open spec fn texts_among(items: Seq<JsonModel>) -> Seq<Seq<char>>
    decreases items.len(),
{
    if items.len() == 0 {
        Seq::empty()
    } else {
        match text_of(Some(items.last())) {
            Some(text) => texts_among(items.drop_last()).push(text),
            None => texts_among(items.drop_last()),
        }
    }
}

/// The symbols that a request lists, where it has a list of them.
pub open spec fn symbols_in(value: JsonModel) -> Option<Seq<Seq<char>>> {
    match member(value, "symbols"@) {
        Some(JsonModel::Array(items)) => Some(texts_among(items)),
        _ => None,
    }
}

/// The stream that a request names; all where it names none.
pub open spec fn stream_in(value: JsonModel) -> Seq<char> {
    match text_of(member(value, "stream"@)) {
        Some(stream) => stream,
        None => "all"@,
    }
}

/// The answer to a text that is no JSON.
pub open spec fn invalid_answer() -> ReportModel {
    ReportModel::Record(seq![("error"@, ReportModel::Text("invalid JSON"@))])
}

/// The answer to a subscription. It repeats what was asked for.
pub open spec fn subscribed_answer(
    stream: Seq<char>,
    symbols: Option<Seq<Seq<char>>>,
) -> ReportModel {
    ReportModel::Record(
        seq![
            ("status"@, ReportModel::Text("subscribed"@)),
            ("stream"@, ReportModel::Text(stream)),
            (
                "symbols"@,
                match symbols {
                    Some(list) => ReportModel::List(text_items(list)),
                    None => ReportModel::Null,
                },
            ),
        ],
    )
}

/// The answer to the end of a subscription.
pub open spec fn unsubscribed_answer() -> ReportModel {
    ReportModel::Record(seq![("status"@, ReportModel::Text("unsubscribed"@))])
}

/// What is to be done about what a client sent: a JSON value, or something else. Without a
/// subscription the client may ask for one; with one they may end it, and everything else
/// is ignored.
pub open spec fn client_step(subscribed: bool, value: Option<JsonModel>) -> ClientModel {
    match value {
        None => if subscribed {
            ClientModel::Ignore
        } else {
            ClientModel::Answer(invalid_answer())
        },
        Some(value) => {
            let action = text_of(member(value, "action"@));
            if subscribed && action == Some("unsubscribe"@) {
                ClientModel::Unsubscribe(unsubscribed_answer())
            } else if !subscribed && action == Some("subscribe"@) {
                ClientModel::Subscribe {
                    stream: stream_in(value),
                    symbols: symbols_in(value),
                    answer: subscribed_answer(stream_in(value), symbols_in(value)),
                }
            } else {
                ClientModel::Ignore
            }
        },
    }
}

/// The texts among some values.
fn read_texts(items: &[Json]) -> (r: Vec<String>)
    ensures
        texts(r@) == texts_among(items@.map_values(|item: Json| item.model())),
{
    let ghost all = items@.map_values(|item: Json| item.model());
    let mut r: Vec<String> = Vec::new();
    assert(texts(r@) =~= Seq::<Seq<char>>::empty());
    assert(all.take(0) =~= Seq::<JsonModel>::empty());
    for i in 0..items.len()
        invariant
            all == items@.map_values(|item: Json| item.model()),
            texts(r@) == texts_among(all.take(i as int)),
    {
        let ghost before = texts(r@);
        assert(all.take(i + 1).drop_last() =~= all.take(i as int));
        assert(all.take(i + 1).last() == items@[i as int].model());
        match items[i].as_text() {
            Some(text) => {
                r.push(text.to_owned());
                assert(texts(r@) =~= before.push(text@));
            },
            None => {},
        }
    }
    assert(all.take(all.len() as int) =~= all);
    r
}

/// The symbols that a request lists, where it has a list of them.
fn read_symbols(value: &Json) -> (r: Option<Vec<String>>)
    ensures
        text_list(r) == symbols_in(value.model()),
{
    match value.get("symbols") {
        Some(list) => match list {
            Json::Array(items) => {
                assert(list.model()->Array_0 =~= items@.map_values(|item: Json| item.model()));
                Some(read_texts(items.as_slice()))
            },
            _ => None,
        },
        None => None,
    }
}

/// Whether a request is to do something of that name.
fn asks_for(value: &Json, action: &str) -> (r: bool)
    ensures
        r == (text_of(member(value.model(), "action"@)) == Some(action@)),
{
    match value.get("action") {
        Some(name) => match name.as_text() {
            Some(name) => same_text(name, action),
            None => false,
        },
        None => false,
    }
}

/// What is to be done about what a client sent: a JSON value, or something else.
pub fn client_action(subscribed: bool, value: Option<&Json>) -> (r: ClientAction)
    ensures
        r@ == client_step(
            subscribed,
            match value {
                Some(v) => Some(v.model()),
                None => None,
            },
        ),
{
    let value = match value {
        Some(value) => value,
        None => {
            if subscribed {
                return ClientAction::Ignore;
            }
            let answer = Report::record().with("error", Report::text("invalid JSON"));
            assert(answer.model()->Record_0 =~= invalid_answer()->Record_0);
            return ClientAction::Answer(answer);
        },
    };
    if subscribed {
        if asks_for(value, "unsubscribe") {
            let answer = Report::record().with("status", Report::text("unsubscribed"));
            assert(answer.model()->Record_0 =~= unsubscribed_answer()->Record_0);
            return ClientAction::Unsubscribe(answer);
        }
        return ClientAction::Ignore;
    }
    if !asks_for(value, "subscribe") {
        return ClientAction::Ignore;
    }
    let stream = match value.get("stream") {
        Some(name) => match name.as_text() {
            Some(name) => name.to_owned(),
            None => "all".to_owned(),
        },
        None => "all".to_owned(),
    };
    let symbols = read_symbols(value);
    let listed = match &symbols {
        Some(list) => Report::texts(list.as_slice()),
        None => Report::Null,
    };
    let answer = Report::record().with("status", Report::text("subscribed")).with(
        "stream",
        Report::text(stream.as_str()),
    ).with("symbols", listed);
    assert(answer.model()->Record_0 =~= subscribed_answer(
        stream@,
        text_list(symbols),
    )->Record_0);
    ClientAction::Subscribe { stream, symbols, answer }
}

/// What is to be done about a text from a client.
pub fn on_client_text(subscribed: bool, text: &str) -> (r: ClientAction)
    ensures
        r@ == client_step(subscribed, crate::json::json_text(text@)),
{
    match parse_json(text) {
        Some(value) => client_action(subscribed, Some(&value)),
        None => client_action(subscribed, None),
    }
}

} // verus!
