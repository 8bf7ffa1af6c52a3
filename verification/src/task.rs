//! The task that a command line describes, and what the tool does once the
//! files are done.

use vstd::prelude::*;
use crate::args::{ArgParser, texts, opt_view, SHOW_BIT, SHUTDOWN_BIT, HIBERNATE_BIT, SLEEP_BIT};

verus! {

/// The input files, each once, in the order in which they were first found.
pub struct PathSet {
    paths: Vec<String>,
}

impl PathSet {
    #[verifier::type_invariant]
    spec fn no_path_twice(self) -> bool {
        texts(self.paths@).no_duplicates()
    }

    /// The paths, in order.
    pub closed spec fn view(&self) -> Seq<Seq<char>> {
        texts(self.paths@)
    }

    /// No path.
    pub fn new() -> (set: PathSet)
        ensures
            set.view() == Seq::<Seq<char>>::empty(),
    {
        let set = PathSet { paths: Vec::new() };
        assert(texts(set.paths@) =~= Seq::<Seq<char>>::empty());
        set
    }

    /// Adds a path unless it is there already; tells whether it was added.
    pub fn insert(&mut self, path: String) -> (added: bool)
        ensures
            added == !old(self).view().contains(path@),
            final(self).view() == if added { old(self).view().push(path@) } else { old(self).view() },
            final(self).view().no_duplicates(),
    {
        proof {
            use_type_invariant(&*self);
        }
        let n = self.paths.len();
        let mut i: usize = 0;
        while i < n
            invariant
                n == self.paths.len(),
                i <= n,
                forall|j: int| 0 <= j < i ==> self.paths@[j]@ != path@,
                self.view().no_duplicates(),
            decreases n - i,
        {
            if self.paths[i] == path {
                assert(self.view()[i as int] == path@);
                return false;
            }
            i = i + 1;
        }
        assert(!self.view().contains(path@)) by {
            if self.view().contains(path@) {
                let j = choose|j: int| 0 <= j < self.view().len() && self.view()[j] == path@;
                assert(self.paths@[j]@ == path@);
            }
        }
        let ghost before = self.view();
        let mut paths: Vec<String> = Vec::new();
        std::mem::swap(&mut paths, &mut self.paths);
        assert(texts(self.paths@) =~= Seq::<Seq<char>>::empty());
        paths.push(path);
        assert(texts(paths@) =~= before.push(path@));
        self.paths = paths;
        true
    }

    /// Whether `path` is one of the paths.
    pub fn contains(&self, path: &String) -> (found: bool)
        ensures
            found == self.view().contains(path@),
    {
        let n = self.paths.len();
        let mut i: usize = 0;
        while i < n
            invariant
                n == self.paths.len(),
                i <= n,
                forall|j: int| 0 <= j < i ==> self.paths@[j]@ != path@,
            decreases n - i,
        {
            if self.paths[i] == *path {
                assert(self.view()[i as int] == path@);
                return true;
            }
            i = i + 1;
        }
        assert(!self.view().contains(path@)) by {
            if self.view().contains(path@) {
                let j = choose|j: int| 0 <= j < self.view().len() && self.view()[j] == path@;
                assert(self.paths@[j]@ == path@);
            }
        }
        false
    }

    /// The paths, in order.
    pub fn into_vec(self) -> (paths: Vec<String>)
        ensures
            texts(paths@) == self.view(),
            texts(paths@).no_duplicates(),
    {
        proof {
            use_type_invariant(&self);
        }
        self.paths
    }
}

/// What the command line asks for.
pub struct Task {
    /// The target loudness as written after `-l`; `None` where absent, and the
    /// tool then takes its default.
    pub loudness: Option<String>,
    /// The input files, each once.
    pub paths: Vec<String>,
    /// The output folder; `$$$` where none was given.
    pub dest: String,
    /// The number of worker threads.
    pub num_th: i32,
    /// The action mask (see the `*_BIT` constants of `args`).
    pub actions: i32,
    /// The gain to set, as written after `-st` or `-sa`; `None` where absent,
    /// and the tool then takes 0.
    pub rg_set: Option<String>,
}

/// A power action to take once the work is done.
#[derive(Clone, Copy, PartialEq, Eq, Structural, Debug)]
pub enum PowerAction {
    Shutdown,
    Hibernate,
    Sleep,
}

impl PowerAction {
    /// The number under which the action is announced: 1, 2 and 3 in the order
    /// shut down, hibernate, sleep.
    pub fn number(&self) -> (n: u32)
        ensures
            n == match *self {
                PowerAction::Shutdown => 1u32,
                PowerAction::Hibernate => 2u32,
                PowerAction::Sleep => 3u32,
            },
    {
        match self {
            PowerAction::Shutdown => 1,
            PowerAction::Hibernate => 2,
            PowerAction::Sleep => 3,
        }
    }
}

/// What to do once the files are done.
pub struct FinishPlan {
    /// Open the output folder.
    pub open_output: bool,
    /// The power actions to take, in order.
    pub power: Vec<PowerAction>,
}

/// The power actions that an action mask asks for: shut down, hibernate and
/// sleep, in this order, each where its bit is set.
pub open spec fn power_actions(actions: i32) -> Seq<PowerAction> {
    (if actions & SHUTDOWN_BIT == SHUTDOWN_BIT { seq![PowerAction::Shutdown] } else { seq![] })
        + (if actions & HIBERNATE_BIT == HIBERNATE_BIT { seq![PowerAction::Hibernate] } else { seq![] })
        + (if actions & SLEEP_BIT == SLEEP_BIT { seq![PowerAction::Sleep] } else { seq![] })
}

impl Task {
    /// The task of a command line that was read whole, with the input files
    /// that its arguments named.
    pub fn from_settings(settings: ArgParser, paths: PathSet) -> (task: Task)
        ensures
            task.loudness == settings.loudness,
            texts(task.paths@) == paths.view(),
            texts(task.paths@).no_duplicates(),
            task.dest == settings.dest,
            task.num_th == settings.num_th,
            task.actions == settings.actions,
            task.rg_set == settings.rg_set,
    {
        Task {
            loudness: settings.loudness,
            paths: paths.into_vec(),
            dest: settings.dest,
            num_th: settings.num_th,
            actions: settings.actions,
            rg_set: settings.rg_set,
        }
    }

    /// What to do once the work is done: open the output folder where `-show`
    /// was given, then shut down, hibernate and sleep where asked.
    pub fn finish(&self) -> (plan: FinishPlan)
        ensures
            plan.open_output == (self.actions & SHOW_BIT == SHOW_BIT),
            plan.open_output == (self.actions & 1 != 0),
            plan.power@ == power_actions(self.actions),
    {
        let ghost a = self.actions;
        assert(a & 1 == 1 <==> a & 1 != 0) by (bit_vector);
        let mut power: Vec<PowerAction> = Vec::new();
        if self.actions & SHUTDOWN_BIT == SHUTDOWN_BIT {
            power.push(PowerAction::Shutdown);
        }
        if self.actions & HIBERNATE_BIT == HIBERNATE_BIT {
            power.push(PowerAction::Hibernate);
        }
        if self.actions & SLEEP_BIT == SLEEP_BIT {
            power.push(PowerAction::Sleep);
        }
        assert(power@ =~= power_actions(self.actions));
        FinishPlan { open_output: self.actions & SHOW_BIT == SHOW_BIT, power }
    }
}

/// The place of a power action in the order in which they are taken.
pub open spec fn power_rank(p: PowerAction) -> int {
    match p {
        PowerAction::Shutdown => 0,
        PowerAction::Hibernate => 1,
        PowerAction::Sleep => 2,
    }
}

/// The power actions follow their documented bits of the action mask: shut
/// down exactly with bit 2, hibernate with bit 4, sleep with bit 8, each at
/// most once and in this order; the other bits ask for none.
pub proof fn law_power_follows_the_bits(actions: i32)
    ensures
        power_actions(actions).contains(PowerAction::Shutdown) <==> actions & 2 != 0,
        power_actions(actions).contains(PowerAction::Hibernate) <==> actions & 4 != 0,
        power_actions(actions).contains(PowerAction::Sleep) <==> actions & 8 != 0,
        forall|i: int, j: int|
            0 <= i < j < power_actions(actions).len() ==> power_rank(
                #[trigger] power_actions(actions)[i],
            ) < power_rank(#[trigger] power_actions(actions)[j]),
        power_actions(actions) == power_actions(actions & 14),
{
    let a = actions;
    assert(a & 2 == 2 <==> a & 2 != 0) by (bit_vector);
    assert(a & 4 == 4 <==> a & 4 != 0) by (bit_vector);
    assert(a & 8 == 8 <==> a & 8 != 0) by (bit_vector);
    assert((a & 14) & 2 == a & 2 && (a & 14) & 4 == a & 4 && (a & 14) & 8 == a & 8) by (bit_vector);
    let p = power_actions(a);
    let s1: Seq<PowerAction> = if a & 2 == 2 { seq![PowerAction::Shutdown] } else { seq![] };
    let s2: Seq<PowerAction> = if a & 4 == 4 { seq![PowerAction::Hibernate] } else { seq![] };
    let s3: Seq<PowerAction> = if a & 8 == 8 { seq![PowerAction::Sleep] } else { seq![] };
    assert(p == s1 + s2 + s3);
    assert(p.contains(PowerAction::Shutdown) <==> a & 2 != 0) by {
        if a & 2 != 0 {
            assert(p[0] == PowerAction::Shutdown);
        }
    }
    assert(p.contains(PowerAction::Hibernate) <==> a & 4 != 0) by {
        if a & 4 != 0 {
            assert(p[s1.len() as int] == PowerAction::Hibernate);
        }
    }
    assert(p.contains(PowerAction::Sleep) <==> a & 8 != 0) by {
        if a & 8 != 0 {
            assert(p[s1.len() + s2.len() as int] == PowerAction::Sleep);
        }
    }
}

} // verus!
