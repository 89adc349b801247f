//! High-level rendering interface: matches events against a render
//! trigger and applies the (placeholder) drawing pass to the image.

use vstd::prelude::*;

use crate::data::{EventRender, EventTrigger, SsbRender};

verus! {

/// What the caller renders by: an event id or a time in milliseconds.
#[derive(Debug, Clone, Copy)]
pub enum RenderTrigger<'a> {
    Id(&'a str),
    Time(u32),
}

/// Failure of a rendering call.
#[derive(Debug, PartialEq, Eq, Structural, Clone, Copy)]
pub enum RenderingError {
    InvalidImage,
}

/// An owned image: sample planes of raw bytes.
#[derive(Debug, PartialEq, Clone)]
pub struct Image {
    pub width: u16,
    pub height: u16,
    pub stride: u32,
    pub planes: Vec<Vec<u8>>,
}

/// Whether an event is shown under a render trigger: ids must be equal,
/// a time must lie within the event's half-open range.
pub open spec fn trigger_matches(event: EventTrigger, trigger: RenderTrigger) -> bool {
    match (event, trigger) {
        (EventTrigger::Id(event_id), RenderTrigger::Id(render_id)) => event_id@ == render_id@,
        (EventTrigger::Time(range), RenderTrigger::Time(now)) => range.0 <= now < range.1,
        _ => false,
    }
}

/// How many of the events a trigger matches.
pub open spec fn match_count(events: Seq<EventRender>, trigger: RenderTrigger) -> int
    decreases events.len(),
{
    if events.len() == 0 {
        0
    } else {
        match_count(events.drop_last(), trigger) + (if trigger_matches(
            events.last().trigger,
            trigger,
        ) {
            1int
        } else {
            0int
        })
    }
}

/// A sample after one inversion pass.
pub open spec fn inverted(b: u8) -> u8 {
    (255 - b) as u8
}

/// The planes after the matching events have drawn: each matching event
/// inverts every sample once, so a sample ends inverted exactly when the
/// match count is odd.
pub open spec fn rendered_planes(planes: Seq<Seq<u8>>, matches: int) -> Seq<Seq<u8>> {
    if matches % 2 == 1 {
        planes.map_values(|row: Seq<u8>| row.map_values(|b: u8| inverted(b)))
    } else {
        planes
    }
}

/// The sequence of plane views of an image.
pub open spec fn planes_view(planes: Seq<Vec<u8>>) -> Seq<Seq<u8>> {
    planes.map_values(|p: Vec<u8>| p@)
}

/// Whether an event matches the trigger.
fn matches_trigger(event: &EventTrigger, trigger: &RenderTrigger) -> (r: bool)
    ensures
        r == trigger_matches(*event, *trigger),
{
    match (event, trigger) {
        (EventTrigger::Id(event_id), RenderTrigger::Id(render_id)) => crate::chars::str_eq(
            event_id.as_str(),
            render_id,
        ),
        (EventTrigger::Time(range), RenderTrigger::Time(now)) => range.0 <= *now && *now < range.1,
        _ => false,
    }
}

/// Invert every sample of every plane once.
fn invert_planes(planes: &mut Vec<Vec<u8>>)
    ensures
        planes_view(final(planes)@) == planes_view(old(planes)@).map_values(
            |row: Seq<u8>| row.map_values(|b: u8| inverted(b)),
        ),
{
    let ghost pre = planes_view(planes@);
    let mut p: usize = 0;
    while p < planes.len()
        invariant
            0 <= p <= planes@.len(),
            planes@.len() == pre.len(),
            pre == planes_view(old(planes)@),
            forall|t: int|
                p <= t < planes@.len() ==> (#[trigger] planes@[t])@ == pre[t],
            forall|t: int|
                0 <= t < p ==> (#[trigger] planes@[t])@ == pre[t].map_values(
                    |b: u8| inverted(b),
                ),
        decreases planes@.len() - p,
    {
        let row = &mut planes[p];
        let ghost rpre = row@;
        let mut j: usize = 0;
        while j < row.len()
            invariant
                0 <= j <= row@.len(),
                row@.len() == rpre.len(),
                forall|t: int| j <= t < row@.len() ==> row@[t] == rpre[t],
                forall|t: int| 0 <= t < j ==> row@[t] == inverted(rpre[t]),
            decreases row@.len() - j,
        {
            let b = row[j];
            row.set(j, 255 - b);
            j = j + 1;
        }
        proof {
            assert(row@ =~= rpre.map_values(|b: u8| inverted(b)));
        }
        p = p + 1;
    }
    proof {
        assert(planes_view(planes@) =~= pre.map_values(
            |row: Seq<u8>| row.map_values(|b: u8| inverted(b)),
        ));
    }
}

/// Renderer for script data on images.
#[derive(Debug)]
pub struct SsbRenderer {
    data: SsbRender,
}

impl SsbRenderer {
    /// The events the renderer draws.
    pub closed spec fn events(&self) -> Seq<EventRender> {
        self.data.events@
    }

    /// Consume script data as the rendering blueprint.
    pub fn new(data: SsbRender) -> (r: Self)
        ensures
            r.events() == data.events@,
    {
        Self { data }
    }

    /// Render on an image every event the trigger matches. The drawing
    /// pass is a placeholder that inverts each sample plane once per
    /// matching event; the call never fails.
    pub fn render(&mut self, img: Image, trigger: RenderTrigger) -> (r: Result<
        Image,
        RenderingError,
    >)
        ensures
            final(self).events() == old(self).events(),
            r is Ok,
            r matches Ok(out) && planes_view(out.planes@) == rendered_planes(
                planes_view(img.planes@),
                match_count(old(self).events(), trigger),
            ) && out.width == img.width && out.height == img.height && out.stride == img.stride,
    {
        let mut out = img;
        let mut e: usize = 0;
        let ghost pre_planes = planes_view(out.planes@);
        let n = self.data.events.len();
        while e < n
            invariant
                0 <= e <= n,
                n == self.events().len(),
                self.events() == old(self).events(),
                out.width == img.width,
                out.height == img.height,
                out.stride == img.stride,
                pre_planes == planes_view(img.planes@),
                planes_view(out.planes@) == rendered_planes(
                    pre_planes,
                    match_count(self.events().take(e as int), trigger),
                ),
            decreases n - e,
        {
            let matched = matches_trigger(&self.data.events[e].trigger, &trigger);
            proof {
                assert(self.events().take(e as int + 1).drop_last() =~= self.events().take(
                    e as int,
                ));
                assert(self.events().take(e as int + 1).last() == self.events()[e as int]);
            }
            if matched {
                let ghost before = planes_view(out.planes@);
                invert_planes(&mut out.planes);
                proof {
                    let c = match_count(self.events().take(e as int), trigger);
                    if c % 2 == 1 {
                        assert(planes_view(out.planes@) =~= pre_planes) by {
                            assert forall|t: int| 0 <= t < pre_planes.len() implies before.map_values(
                                |row: Seq<u8>| row.map_values(|b: u8| inverted(b)),
                            )[t] =~= pre_planes[t] by {
                                assert(before[t] =~= pre_planes[t].map_values(
                                    |b: u8| inverted(b),
                                ));
                                assert forall|x: int|
                                    0 <= x < pre_planes[t].len() implies before[t].map_values(
                                    |b: u8| inverted(b),
                                )[x] == pre_planes[t][x] by {}
                            }
                        }
                    }
                }
            }
            e = e + 1;
        }
        proof {
            assert(self.events().take(n as int) =~= self.events());
        }
        Ok(out)
    }
}

} // verus!
