//! Writing a document back: its events are replayed in order, each in its
//! phase, and each is written as it is.

use crate::document::{layer_events, object_events, Inkscape, InkscapeView, Layer, LayerView};
use crate::error::Phase;
use crate::event::{Event, EventView};
use crate::object::Object;
use vstd::prelude::*;

verus! {

/// One step of writing a document: an event and the phase it is written in.
#[derive(Debug, Clone, PartialEq, Eq)]
pub struct Step {
    pub phase: Phase,
    pub event: Event,
}

/// Mathematical model of a [`Step`].
pub struct StepView {
    pub phase: Phase,
    pub event: EventView,
}

impl View for Step {
    type V = StepView;

    open spec fn view(&self) -> StepView {
        StepView { phase: self.phase, event: self.event@ }
    }
}

impl DeepView for Step {
    type V = StepView;

    open spec fn deep_view(&self) -> StepView {
        self@
    }
}

/// `events`, each to be written in `phase`.
pub open spec fn steps(events: Seq<EventView>, phase: Phase) -> Seq<StepView> {
    events.map_values(|event: EventView| StepView { phase, event })
}

/// The steps that write a layer: its header, its objects in their order, its
/// footer.
pub open spec fn layer_steps(layer: LayerView) -> Seq<StepView> {
    seq![StepView { phase: Phase::Header, event: EventView::Start(layer.header) }] + steps(
        object_events(layer.content),
        Phase::Body,
    ) + seq![StepView { phase: Phase::Footer, event: layer.footer }]
}

/// The steps that write layers one after the other.
pub open spec fn layers_steps(layers: Seq<LayerView>) -> Seq<StepView>
    decreases layers.len(),
{
    if layers.len() == 0 {
        Seq::empty()
    } else {
        layers_steps(layers.drop_last()) + layer_steps(layers.last())
    }
}

/// The steps that write a document: every event before the layers, each
/// layer, every event behind the layers.
pub open spec fn replay(document: InkscapeView) -> Seq<StepView> {
    steps(document.leading_events, Phase::Leading) + layers_steps(document.layers) + steps(
        document.trailing_events,
        Phase::Trailing,
    )
}

/// The events of some steps, in their order.
pub open spec fn events_of(plan: Seq<StepView>) -> Seq<EventView> {
    plan.map_values(|step: StepView| step.event)
}

/// The bytes written for `events`, one after the other.
pub open spec fn render_all(events: Seq<EventView>) -> Seq<u8>
    decreases events.len(),
{
    if events.len() == 0 {
        Seq::empty()
    } else {
        render_all(events.drop_last()) + events.last().rendered()
    }
}

/// The steps for layers carry the events of the layers.
proof fn lemma_layers_steps_events(layers: Seq<LayerView>)
    ensures
        events_of(layers_steps(layers)) == layer_events(layers),
    decreases layers.len(),
{
    if layers.len() > 0 {
        let layer = layers.last();
        lemma_layers_steps_events(layers.drop_last());
        assert(events_of(layer_steps(layer)) == layer.events());
        assert(events_of(layers_steps(layers.drop_last()) + layer_steps(layer)) == events_of(
            layers_steps(layers.drop_last()),
        ) + events_of(layer_steps(layer)));
    } else {
        assert(events_of(Seq::<StepView>::empty()) == Seq::<EventView>::empty());
    }
}

/// The steps that write a document carry its events, each once and in the
/// order of the document.
pub proof fn replay_carries_every_event(document: InkscapeView)
    ensures
        events_of(replay(document)) == document.events(),
{
    lemma_layers_steps_events(document.layers);
    let a = steps(document.leading_events, Phase::Leading);
    let b = layers_steps(document.layers);
    let c = steps(document.trailing_events, Phase::Trailing);
    assert(events_of(a) == document.leading_events);
    assert(events_of(c) == document.trailing_events);
    assert(events_of(a + b + c) == events_of(a) + events_of(b) + events_of(c));
}

/// Puts the steps for `events` behind those of `plan`.
fn push_steps(plan: &mut Vec<Step>, events: Vec<Event>, phase: Phase)
    ensures
        final(plan).deep_view() == old(plan).deep_view() + steps(events.deep_view(), phase),
{
    let ghost start = plan.deep_view();
    let ghost all = steps(events.deep_view(), phase);
    assert(start + all.take(0) == start);
    for event in it: events
        invariant
            all == steps(events.deep_view(), phase),
            it.seq() == events@,
            plan.deep_view() == start + all.take(it.index() as int),
    {
        let ghost before = plan.deep_view();
        let ghost i = it.index() as int;
        assert(events.deep_view()[i] == event@);
        let step = Step { phase, event };
        plan.push(step);
        assert(plan.deep_view() == before.push(step@));
        assert(all.take(i + 1) == all.take(i).push(step@));
        assert(start + all.take(i).push(step@) == (start + all.take(i)).push(step@));
    }
    assert(all.take(all.len() as int) == all);
}

/// Puts the steps for the objects of a layer behind those of `plan`.
fn push_objects(plan: &mut Vec<Step>, content: Vec<Object>)
    ensures
        final(plan).deep_view() == old(plan).deep_view() + steps(
            object_events(content.deep_view()),
            Phase::Body,
        ),
{
    let ghost start = plan.deep_view();
    let ghost all = steps(object_events(content.deep_view()), Phase::Body);
    assert(start + all.take(0) == start);
    for object in it: content
        invariant
            all == steps(object_events(content.deep_view()), Phase::Body),
            it.seq() == content@,
            plan.deep_view() == start + all.take(it.index() as int),
    {
        let ghost before = plan.deep_view();
        let ghost i = it.index() as int;
        assert(content.deep_view()[i] == object@);
        let step = Step { phase: Phase::Body, event: object.into_event() };
        plan.push(step);
        assert(plan.deep_view() == before.push(step@));
        assert(all.take(i + 1) == all.take(i).push(step@));
        assert(start + all.take(i).push(step@) == (start + all.take(i)).push(step@));
    }
    assert(all.take(all.len() as int) == all);
}

/// Puts the steps for a layer behind those of `plan`.
fn push_layer(plan: &mut Vec<Step>, layer: Layer)
    ensures
        final(plan).deep_view() == old(plan).deep_view() + layer_steps(layer@),
{
    let ghost start = plan.deep_view();
    let (_, _, header, content, footer) = layer.into_parts();
    let first = Step { phase: Phase::Header, event: Event::Start(header) };
    let last = Step { phase: Phase::Footer, event: footer };
    plan.push(first);
    assert(plan.deep_view() == start.push(first@));
    push_objects(plan, content);
    let ghost middle = plan.deep_view();
    plan.push(last);
    assert(plan.deep_view() == middle.push(last@));
    assert(plan.deep_view() == start + layer_steps(layer@));
}

/// Takes the steps of `plan` in order and hands back what they write: the
/// bytes of every event, one after the other.
pub fn write_steps(plan: &Vec<Step>) -> (bytes: Vec<u8>)
    ensures
        bytes@ == render_all(events_of(plan.deep_view())),
{
    let mut out: Vec<u8> = Vec::new();
    let ghost all = events_of(plan.deep_view());
    assert(all.take(0) == Seq::<EventView>::empty());
    let mut i: usize = 0;
    while i < plan.len()
        invariant
            i <= plan.len(),
            all == events_of(plan.deep_view()),
            out@ == render_all(all.take(i as int)),
        decreases plan.len() - i,
    {
        proof {
            assert(all.take(i + 1).drop_last() == all.take(i as int));
            assert(all.take(i + 1).last() == plan[i as int].event@);
        }
        plan[i].event.render(&mut out);
        i = i + 1;
    }
    assert(all.take(i as int) == all);
    out
}

impl Inkscape {
    /// The steps that write the document, in their order: every event before
    /// the layers, then for each layer its header, its objects and its footer,
    /// then every event behind the layers.
    pub fn replay(self) -> (plan: Vec<Step>)
        ensures
            plan.deep_view() == replay(self@),
    {
        let (leading, layers, trailing) = self.into_parts();
        let mut plan: Vec<Step> = Vec::new();
        assert(plan.deep_view() == Seq::<StepView>::empty());
        push_steps(&mut plan, leading, Phase::Leading);
        let ghost first = plan.deep_view();
        assert(first == steps(leading.deep_view(), Phase::Leading));
        let ghost all = layers.deep_view();
        assert(first + layers_steps(all.take(0)) == first);
        for layer in it: layers
            invariant
                all == layers.deep_view(),
                it.seq() == layers@,
                plan.deep_view() == first + layers_steps(all.take(it.index() as int)),
        {
            let ghost i = it.index() as int;
            let ghost before = plan.deep_view();
            assert(all[i] == layer@);
            assert(all.take(i + 1).drop_last() == all.take(i));
            push_layer(&mut plan, layer);
            assert(first + layers_steps(all.take(i)) + layer_steps(layer@) == first + (layers_steps(
                all.take(i),
            ) + layer_steps(layer@)));
        }
        assert(all.take(all.len() as int) == all);
        push_steps(&mut plan, trailing, Phase::Trailing);
        plan
    }

    /// Writes the document: every event before the layers, each layer with
    /// its header, objects and footer, every event behind the layers, each
    /// event as it is. Every document can be written.
    pub fn write_svg(self) -> (bytes: Vec<u8>)
        ensures
            bytes@ == render_all(self@.events()),
    {
        proof {
            replay_carries_every_event(self@);
        }
        let plan = self.replay();
        write_steps(&plan)
    }
}

} // verus!
