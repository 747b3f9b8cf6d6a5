//! The bounce budget of one traced path. A path starts with a depth; each
//! scattering spends one unit of it and adds one attenuation factor. The
//! path ends black when the budget is spent or a surface absorbs it, and
//! in the sky colour when it leaves the scene.
use vstd::prelude::*;

verus! {

/// What the scene and the hit material did with one ray.
#[derive(Clone, Copy, Debug, PartialEq, Eq, Structural)]
pub enum Surface {
    /// No object lies along the ray.
    Missed,
    /// The ray hit a surface whose material absorbed it.
    Absorbed,
    /// The ray hit a surface and the material sent a new ray on.
    Scattered,
}

/// The light a finished path carries before its attenuation factors.
#[derive(Clone, Copy, Debug, PartialEq, Eq, Structural)]
pub enum Ending {
    /// No light.
    Black,
    /// The background gradient of the last ray's direction.
    Sky,
}

/// What the tracer does next with a path.
#[derive(Clone, Copy, Debug, PartialEq, Eq, Structural)]
pub enum Next {
    /// Intersect the current ray with the scene.
    Trace,
    /// Stop: the path's colour is its attenuation factors times this light.
    Done(Ending),
}

/// How a path that starts with budget `depth` ends when its rays meet
/// `surfaces` in turn: the ending and the number of attenuation factors,
/// or None when the surfaces run out first.
pub open spec fn outcome(depth: int, surfaces: Seq<Surface>) -> Option<(Ending, nat)>
    decreases surfaces.len(),
{
    if depth <= 0 {
        Some((Ending::Black, 0))
    } else if surfaces.len() == 0 {
        None
    } else {
        match surfaces[0] {
            Surface::Missed => Some((Ending::Sky, 0)),
            Surface::Absorbed => Some((Ending::Black, 0)),
            Surface::Scattered => match outcome(depth - 1, surfaces.drop_first()) {
                Some((e, n)) => Some((e, n + 1)),
                None => None,
            },
        }
    }
}

/// State of one traced path.
#[derive(Clone, Copy, Debug)]
pub struct Path {
    /// The budget the path started with.
    pub depth: i32,
    /// Budget left.
    pub remaining: i32,
    /// Attenuation factors gathered so far.
    pub scattered: u32,
    /// Set once the path has finished.
    pub ending: Option<Ending>,
}

impl Path {
    /// Scatterings and remaining budget always add up to the starting budget.
    pub open spec fn wf(self) -> bool {
        &&& self.scattered as int + self.remaining as int == if self.depth > 0 {
            self.depth as int
        } else {
            self.remaining as int
        }
        &&& self.depth > 0 ==> self.remaining >= 0
        &&& self.depth <= 0 ==> self.scattered == 0 && self.remaining == self.depth
        &&& self.remaining <= 0 ==> self.ending == Some(Ending::Black)
    }

    /// What the tracer does next with this path.
    pub open spec fn next_spec(self) -> Next {
        match self.ending {
            Some(e) => Next::Done(e),
            None => Next::Trace,
        }
    }

    /// The path after its current ray met `surface`.
    pub open spec fn after(self, surface: Surface) -> Path {
        match surface {
            Surface::Missed => Path { ending: Some(Ending::Sky), ..self },
            Surface::Absorbed => Path { ending: Some(Ending::Black), ..self },
            Surface::Scattered => Path {
                remaining: (self.remaining - 1) as i32,
                scattered: (self.scattered + 1) as u32,
                ending: if self.remaining - 1 <= 0 {
                    Some(Ending::Black)
                } else {
                    None
                },
                ..self
            },
        }
    }

    /// The path after its rays met `surfaces` in turn, up to its end.
    pub open spec fn run(self, surfaces: Seq<Surface>) -> Path
        decreases surfaces.len(),
    {
        if self.ending is Some || surfaces.len() == 0 {
            self
        } else {
            self.after(surfaces[0]).run(surfaces.drop_first())
        }
    }

    /// A path with the given budget, before its first ray is traced. A path
    /// with no budget ends black at once, whatever the ray and the scene.
    pub fn new(depth: i32) -> (r: Path)
        ensures
            r.wf(),
            r.depth == depth,
            r.remaining == depth,
            r.scattered == 0,
            r.ending == (if depth <= 0 {
                Some(Ending::Black)
            } else {
                None
            }),
            depth <= 0 ==> r.next_spec() == Next::Done(Ending::Black),
            depth > 0 ==> r.next_spec() == Next::Trace,
    {
        let ending = if depth <= 0 {
            Some(Ending::Black)
        } else {
            None
        };
        Path { depth, remaining: depth, scattered: 0, ending }
    }

    /// What the tracer does next with this path.
    pub fn next(&self) -> (r: Next)
        ensures
            r == self.next_spec(),
    {
        match self.ending {
            Some(e) => Next::Done(e),
            None => Next::Trace,
        }
    }

    /// Records what happened to the current ray of a path still being
    /// traced, and says what to do next.
    pub fn record(&mut self, surface: Surface) -> (r: Next)
        requires
            old(self).wf(),
            old(self).ending is None,
        ensures
            final(self).wf(),
            *final(self) == old(self).after(surface),
            r == final(self).next_spec(),
            surface == Surface::Missed ==> *final(self) == (Path {
                ending: Some(Ending::Sky),
                ..*old(self)
            }),
            surface == Surface::Absorbed ==> *final(self) == (Path {
                ending: Some(Ending::Black),
                ..*old(self)
            }),
            surface == Surface::Scattered ==> final(self).remaining == old(self).remaining - 1
                && final(self).scattered == old(self).scattered + 1 && final(self).ending == (
            if old(self).remaining == 1 {
                Some(Ending::Black)
            } else {
                None
            }),
    {
        match surface {
            Surface::Missed => {
                self.ending = Some(Ending::Sky);
            },
            Surface::Absorbed => {
                self.ending = Some(Ending::Black);
            },
            Surface::Scattered => {
                self.remaining = self.remaining - 1;
                self.scattered = self.scattered + 1;
                if self.remaining <= 0 {
                    self.ending = Some(Ending::Black);
                }
            },
        }
        self.next()
    }
}

/// Tracing a path step by step ends as `outcome` says: started with budget
/// `depth`, once its rays have met `surfaces` and it has finished, its
/// ending and attenuation factors are those of `outcome(depth, surfaces)`.
pub proof fn lemma_run_matches_outcome(depth: i32, surfaces: Seq<Surface>)
    ensures
        ({
            let p = Path { depth, remaining: depth, scattered: 0, ending: if depth <= 0 {
                Some(Ending::Black)
            } else {
                None
            } };
            let q = p.run(surfaces);
            q.ending matches Some(e) ==> outcome(depth as int, surfaces) == Some((e, q.scattered as nat))
        }),
{
    let p = Path { depth, remaining: depth, scattered: 0, ending: if depth <= 0 {
        Some(Ending::Black)
    } else {
        None
    } };
    lemma_run_from(p, surfaces);
}

proof fn lemma_run_from(p: Path, surfaces: Seq<Surface>)
    requires
        p.wf(),
        p.ending is Some ==> p.ending == Some(Ending::Black) && p.remaining <= 0,
    ensures
        ({
            let q = p.run(surfaces);
            q.ending matches Some(e) ==> q.scattered >= p.scattered && outcome(
                p.remaining as int,
                surfaces,
            ) == Some((e, (q.scattered - p.scattered) as nat))
        }),
    decreases surfaces.len(),
{
    if p.ending is None && surfaces.len() > 0 {
        let p2 = p.after(surfaces[0]);
        assert(p.run(surfaces) == p2.run(surfaces.drop_first()));
        match surfaces[0] {
            Surface::Scattered => {
                lemma_run_from(p2, surfaces.drop_first());
            },
            _ => {
                assert(p2.run(surfaces.drop_first()) == p2);
            },
        }
    }
}

/// A path with no budget ends black with no attenuation factor, whatever
/// its rays meet.
pub proof fn lemma_no_budget_is_black(depth: int, surfaces: Seq<Surface>)
    requires
        depth <= 0,
    ensures
        outcome(depth, surfaces) == Some((Ending::Black, 0nat)),
{
}

/// A finished path gathers at most `depth` attenuation factors, and one
/// that spends its whole budget ends black.
pub proof fn lemma_outcome_bounded(depth: int, surfaces: Seq<Surface>)
    ensures
        outcome(depth, surfaces) matches Some((e, n)) ==> n <= if depth > 0 {
            depth
        } else {
            0
        } && (depth > 0 && n == depth ==> e == Ending::Black),
    decreases surfaces.len(),
{
    if depth > 0 && surfaces.len() > 0 {
        lemma_outcome_bounded(depth - 1, surfaces.drop_first());
    }
}

} // verus!
