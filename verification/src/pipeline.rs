//! The order of work within one frame.
//!
//! A frame is a walk through the phases below, from `Rebuild` to `Done`. At
//! each phase the runtime decides whether there is work for the host to do,
//! and names it; the host does it and asks for the next phase.

use vstd::prelude::*;
use crate::context::{taken_back, without_entities, Context, World};
use crate::entity::Entity;
use crate::geometry::Scalar;
use crate::id_manager::IdManager;
use crate::outline::{descendants_at, emptied, lemma_emptied_root, Node};
use crate::window::after_resize;

verus! {

/// Where a frame stands.
#[derive(Clone, Copy, Debug, PartialEq, Eq, Structural)]
pub enum Phase {
    /// The tree is built again, if that is due: what was built before is
    /// removed, then the closure builds it anew.
    Rebuild,
    /// The tree was built again.
    Rebuilt,
    /// Fonts and other resources that wait are loaded.
    Resources,
    /// The queue is flushed until it is empty.
    Events,
    /// Lenses are updated and their observers rendered again.
    Data,
    /// The styles are resolved.
    Styles,
    ZOrder,
    Visibility,
    TextConstraints,
    /// Positions and sizes are computed, if that is due.
    Layout,
    /// Positions and sizes were computed.
    LaidOut,
    /// Entities whose geometry changed are told so.
    Geometry,
    /// The loop is woken if the frame so far has queued events.
    Wake,
    Transform,
    Hover,
    Clipping,
    /// A repaint is asked for, if that is due.
    Redraw,
    /// A repaint was asked for.
    RedrawRequested,
    /// The idle callback runs, if there is one.
    Idle,
    /// The loop is woken if the idle callback has queued events.
    IdleWake,
    /// The frame is over.
    Done,
}

/// Work that the runtime asks the host to do.
#[derive(Clone, Copy, Debug, PartialEq, Eq, Structural)]
pub enum Action {
    /// Run the closure that builds the tree, at the root. The tree holds
    /// the root alone at this point.
    Rebuild,
    /// Load the fonts that wait into the renderer and the text engine.
    LoadResources,
    /// Deliver every event that is in the queue now.
    FlushEvents,
    /// Update every lens against every model, and render the observers of
    /// those that changed.
    UpdateData,
    ApplyStyles,
    ApplyZOrdering,
    ApplyVisibility,
    ApplyTextConstraints,
    ApplyLayout,
    /// Tell the entities whose cached geometry changed.
    GeometryChanged,
    /// Wake the loop, so that it looks at the queue again without waiting.
    Wake,
    ApplyTransform,
    ApplyHover,
    ApplyClipping,
    /// Ask the platform to schedule a repaint.
    RequestRedraw,
    /// Run the idle callback, at the root.
    Idle,
}

/// What the runtime decides at one phase.
#[derive(Clone, Copy, Debug, PartialEq, Eq, Structural)]
pub struct Step {
    /// The work to do now, if any.
    pub action: Option<Action>,
    /// The phase to go on with once that work is done.
    pub next: Phase,
}

/// What the runtime decides at `phase` in the world `w`. `idle` says whether
/// the application has an idle callback.
pub open spec fn step_of(w: World, phase: Phase, idle: bool) -> Step {
    match phase {
        Phase::Rebuild => if w.needs_rebuild {
            Step { action: Some(Action::Rebuild), next: Phase::Rebuilt }
        } else {
            Step { action: None, next: Phase::Resources }
        },
        Phase::Rebuilt => Step { action: None, next: Phase::Resources },
        Phase::Resources => Step { action: Some(Action::LoadResources), next: Phase::Events },
        Phase::Events => if w.queue.len() > 0 {
            Step { action: Some(Action::FlushEvents), next: Phase::Events }
        } else {
            Step { action: None, next: Phase::Data }
        },
        Phase::Data => Step { action: Some(Action::UpdateData), next: Phase::Styles },
        Phase::Styles => Step { action: Some(Action::ApplyStyles), next: Phase::ZOrder },
        Phase::ZOrder => Step { action: Some(Action::ApplyZOrdering), next: Phase::Visibility },
        Phase::Visibility => Step { action: Some(Action::ApplyVisibility), next: Phase::TextConstraints },
        Phase::TextConstraints => Step { action: Some(Action::ApplyTextConstraints), next: Phase::Layout },
        Phase::Layout => if w.needs_relayout {
            Step { action: Some(Action::ApplyLayout), next: Phase::LaidOut }
        } else {
            Step { action: None, next: Phase::Geometry }
        },
        Phase::LaidOut => Step { action: None, next: Phase::Geometry },
        Phase::Geometry => Step { action: Some(Action::GeometryChanged), next: Phase::Wake },
        Phase::Wake => Step {
            action: if w.queue.len() > 0 {
                Some(Action::Wake)
            } else {
                None
            },
            next: Phase::Transform,
        },
        Phase::Transform => Step { action: Some(Action::ApplyTransform), next: Phase::Hover },
        Phase::Hover => Step { action: Some(Action::ApplyHover), next: Phase::Clipping },
        Phase::Clipping => Step { action: Some(Action::ApplyClipping), next: Phase::Redraw },
        Phase::Redraw => if w.needs_redraw {
            Step { action: Some(Action::RequestRedraw), next: Phase::RedrawRequested }
        } else {
            Step { action: None, next: Phase::Idle }
        },
        Phase::RedrawRequested => Step { action: None, next: Phase::Idle },
        Phase::Idle => if idle {
            Step { action: Some(Action::Idle), next: Phase::IdleWake }
        } else {
            Step { action: None, next: Phase::Done }
        },
        Phase::IdleWake => Step {
            action: if w.queue.len() > 0 {
                Some(Action::Wake)
            } else {
                None
            },
            next: Phase::Done,
        },
        Phase::Done => Step { action: None, next: Phase::Done },
    }
}

/// The world as the runtime leaves it at `phase`: before the tree is built
/// again, everything below the root is removed, and building starts at the
/// root; a flag is cleared once the work that it asked for was done.
/// `entity_manager` is the manager after the entities below the root were
/// taken back; at every other phase it plays no part.
pub open spec fn world_after(w: World, phase: Phase, idle: bool, entity_manager: IdManager) -> World {
    match phase {
        Phase::Rebuild => if w.needs_rebuild {
            World {
                current: Entity::spec_root(),
                count: 0,
                ..without_entities(w, emptied(w.tree, 0), entity_manager, descendants_at(w.tree, 0))
            }
        } else {
            w
        },
        Phase::Rebuilt => World { needs_rebuild: false, ..w },
        Phase::LaidOut => World { needs_relayout: false, ..w },
        Phase::RedrawRequested => World { needs_redraw: false, ..w },
        Phase::Idle => if idle {
            World { current: Entity::spec_root(), count: 0, ..w }
        } else {
            w
        },
        _ => w,
    }
}

/// How many phases lie between `phase` and the end of the frame.
pub open spec fn phases_left(phase: Phase) -> nat {
    match phase {
        Phase::Rebuild => 20,
        Phase::Rebuilt => 19,
        Phase::Resources => 18,
        Phase::Events => 17,
        Phase::Data => 16,
        Phase::Styles => 15,
        Phase::ZOrder => 14,
        Phase::Visibility => 13,
        Phase::TextConstraints => 12,
        Phase::Layout => 11,
        Phase::LaidOut => 10,
        Phase::Geometry => 9,
        Phase::Wake => 8,
        Phase::Transform => 7,
        Phase::Hover => 6,
        Phase::Clipping => 5,
        Phase::Redraw => 4,
        Phase::RedrawRequested => 3,
        Phase::Idle => 2,
        Phase::IdleWake => 1,
        Phase::Done => 0,
    }
}

impl Context {
    /// Decides what is to be done at `phase`, and prepares the world for
    /// it: where the tree is to be built again, what was built before is
    /// removed first, so that the closure builds the whole tree anew.
    /// `idle` says whether the application has an idle callback.
    pub fn step(&mut self, phase: Phase, idle: bool) -> (step: Step)
        requires
            old(self).wf(),
        ensures
            final(self).wf(),
            step == step_of(old(self)@, phase, idle),
            final(self)@ == world_after(old(self)@, phase, idle, final(self)@.entity_manager),
            phase == Phase::Rebuild && old(self)@.needs_rebuild ==> taken_back(
                old(self)@.entity_manager,
                final(self)@.entity_manager,
                descendants_at(old(self)@.tree, 0),
            ),
    {
        let queued: bool = self.event_queue.len() > 0;
        match phase {
            Phase::Rebuild => {
                if self.environment.needs_rebuild {
                    proof {
                        lemma_emptied_root(self@.tree);
                    }
                    let _ = self.clear(Entity::root());
                    self.current = Entity::root();
                    self.count = 0;
                    Step { action: Some(Action::Rebuild), next: Phase::Rebuilt }
                } else {
                    Step { action: None, next: Phase::Resources }
                }
            },
            Phase::Rebuilt => {
                self.environment.needs_rebuild = false;
                Step { action: None, next: Phase::Resources }
            },
            Phase::Resources => Step { action: Some(Action::LoadResources), next: Phase::Events },
            Phase::Events => {
                if queued {
                    Step { action: Some(Action::FlushEvents), next: Phase::Events }
                } else {
                    Step { action: None, next: Phase::Data }
                }
            },
            Phase::Data => Step { action: Some(Action::UpdateData), next: Phase::Styles },
            Phase::Styles => Step { action: Some(Action::ApplyStyles), next: Phase::ZOrder },
            Phase::ZOrder => Step { action: Some(Action::ApplyZOrdering), next: Phase::Visibility },
            Phase::Visibility => Step { action: Some(Action::ApplyVisibility), next: Phase::TextConstraints },
            Phase::TextConstraints => Step { action: Some(Action::ApplyTextConstraints), next: Phase::Layout },
            Phase::Layout => {
                if self.style.needs_relayout {
                    Step { action: Some(Action::ApplyLayout), next: Phase::LaidOut }
                } else {
                    Step { action: None, next: Phase::Geometry }
                }
            },
            Phase::LaidOut => {
                self.style.needs_relayout = false;
                Step { action: None, next: Phase::Geometry }
            },
            Phase::Geometry => Step { action: Some(Action::GeometryChanged), next: Phase::Wake },
            Phase::Wake => Step {
                action: if queued {
                    Some(Action::Wake)
                } else {
                    None
                },
                next: Phase::Transform,
            },
            Phase::Transform => Step { action: Some(Action::ApplyTransform), next: Phase::Hover },
            Phase::Hover => Step { action: Some(Action::ApplyHover), next: Phase::Clipping },
            Phase::Clipping => Step { action: Some(Action::ApplyClipping), next: Phase::Redraw },
            Phase::Redraw => {
                if self.style.needs_redraw {
                    Step { action: Some(Action::RequestRedraw), next: Phase::RedrawRequested }
                } else {
                    Step { action: None, next: Phase::Idle }
                }
            },
            Phase::RedrawRequested => {
                self.style.needs_redraw = false;
                Step { action: None, next: Phase::Idle }
            },
            Phase::Idle => {
                if idle {
                    self.current = Entity::root();
                    self.count = 0;
                    Step { action: Some(Action::Idle), next: Phase::IdleWake }
                } else {
                    Step { action: None, next: Phase::Done }
                }
            },
            Phase::IdleWake => Step {
                action: if queued {
                    Some(Action::Wake)
                } else {
                    None
                },
                next: Phase::Done,
            },
            Phase::Done => Step { action: None, next: Phase::Done },
        }
    }
}

/// A frame comes to its end: but for the flushing of events, which goes on
/// while the queue holds any, every step leads to a later phase.
pub proof fn lemma_frame_advances(w: World, phase: Phase, idle: bool)
    requires
        phase != Phase::Done,
        !(phase == Phase::Events && w.queue.len() > 0),
    ensures
        phases_left(step_of(w, phase, idle).next) < phases_left(phase),
{
}

/// Where the tree is to be built again, the closure finds the root alone:
/// everything that was built before is gone.
pub proof fn lemma_rebuild_leaves_root(w: World, idle: bool, entity_manager: IdManager)
    requires
        w.wf(),
        w.needs_rebuild,
    ensures
        world_after(w, Phase::Rebuild, idle, entity_manager).tree == seq![Node { entity: Entity::spec_root(), depth: 0 }],
        world_after(w, Phase::Rebuild, idle, entity_manager).current == Entity::spec_root(),
        world_after(w, Phase::Rebuild, idle, entity_manager).count == 0,
{
    lemma_emptied_root(w.tree);
}

/// After the window took a new size, the layout pass of the next frame
/// runs: the phases before it leave the flag alone, and at `Layout` the
/// runtime asks for the pass.
pub proof fn lemma_resize_forces_layout(w: World, width: Scalar, height: Scalar, idle: bool)
    ensures
        after_resize(w, width, height).needs_restyle,
        after_resize(w, width, height).needs_relayout,
        after_resize(w, width, height).needs_redraw,
        forall|v: World, phase: Phase, entity_manager: IdManager|
            v.needs_relayout && phases_left(phase) > phases_left(Phase::Layout) ==> (#[trigger] world_after(
                v,
                phase,
                idle,
                entity_manager,
            )).needs_relayout,
        step_of(after_resize(w, width, height), Phase::Layout, idle) == (Step {
            action: Some(Action::ApplyLayout),
            next: Phase::LaidOut,
        }),
{
}

} // verus!
