//! The interactive navigation session as a state machine.
//!
//! A [`Session`] walks a date-grouped collection in ascending date
//! order. In each group the user views one image at a time, wrapping
//! forward and backward; labelling the group plans the relocation of
//! all its files into a `DD-MM-YYYY_<label>` directory and advances to
//! the next group. Quitting aborts the whole session and changes
//! nothing. The caller performs the planned filesystem work.

use vstd::prelude::*;

use vstd::arithmetic::div_mod::lemma_add_mod_noop_right;
use vstd::arithmetic::div_mod::lemma_mod_bound;
use vstd::arithmetic::div_mod::lemma_mod_multiples_vanish;
use vstd::arithmetic::div_mod::lemma_small_mod;

use crate::commands::UserCommand;
use crate::date::Date;
use crate::group::DateGroup;
use crate::group::GroupedCollection;
use crate::group::group_names;

verus! {

/// The planned relocation of one labelled group: the destination
/// directory and the files (by name) to move into it.
pub struct RelocationPlan {
    pub dir_name: String,
    pub files: Vec<String>,
}

/// What one step of the session did.
pub enum StepOutcome {
    /// The view moved within the current group; the session goes on.
    Continue,
    /// The user quit; nothing was or will be changed.
    Aborted,
    /// The current group was labelled: its files are to be moved as
    /// planned, and the session stands at the next group.
    Moved(RelocationPlan),
}

/// The destination directory name for a labelled group:
/// `DD-MM-YYYY_<label>`.
pub open spec fn dir_name_spec(d: Date, label: Seq<char>) -> Seq<char> {
    d.dd_mm_yyyy() + seq!['_'] + label
}

/// The index shown after one NextImage step in a group of `n` images.
pub open spec fn next_index_spec(i: int, n: int) -> int {
    (i + 1) % n
}

/// The index shown after one PreviousImage step in a group of `n` images.
pub open spec fn prev_index_spec(i: int, n: int) -> int {
    (i + n - 1) % n
}

/// The navigation state: the grouped collection, the group being
/// viewed, and the image viewed inside it.
pub struct Session {
    pub groups: GroupedCollection,
    pub group_idx: usize,
    pub image_idx: usize,
}

impl Session {
    /// The collection is well-formed, the group index is at most one
    /// past the last group, and the image index is valid for the
    /// current group.
    pub open spec fn wf(self) -> bool {
        &&& self.groups.wf()
        &&& self.group_idx <= self.groups.groups@.len()
        &&& self.group_idx < self.groups.groups@.len() ==> self.image_idx
            < self.groups.groups@[self.group_idx as int].files@.len()
    }

    /// All groups have been labelled (or there were none).
    pub open spec fn finished(self) -> bool {
        self.group_idx >= self.groups.groups@.len()
    }

    /// The group currently presented to the user.
    pub open spec fn current_group_spec(self) -> DateGroup {
        self.groups.groups@[self.group_idx as int]
    }

    /// Starts a session at the first group, first image.
    pub fn new(groups: GroupedCollection) -> (s: Session)
        requires
            groups.wf(),
        ensures
            s.wf(),
            s.groups == groups,
            s.group_idx == 0,
            s.image_idx == 0,
    {
        Session { groups, group_idx: 0, image_idx: 0 }
    }

    /// Whether every group has been handled.
    pub fn done(&self) -> (r: bool)
        ensures
            r == self.finished(),
    {
        self.group_idx >= self.groups.groups.len()
    }

    /// The currently viewed file's name.
    pub fn current_image(&self) -> (r: &String)
        requires
            self.wf(),
            !self.finished(),
        ensures
            r@ == group_names(self.current_group_spec())[self.image_idx as int],
    {
        proof {
            assert(group_names(self.current_group_spec())[self.image_idx as int]
                == self.current_group_spec().files@[self.image_idx as int]@);
        }
        &self.groups.groups[self.group_idx].files[self.image_idx]
    }

    /// The files of the currently viewed group.
    pub fn current_files(&self) -> (r: &Vec<String>)
        requires
            self.wf(),
            !self.finished(),
        ensures
            r == self.current_group_spec().files,
    {
        &self.groups.groups[self.group_idx].files
    }

    /// One step of the interactive loop, on the current group. Quit
    /// aborts with the state unchanged; NextImage and PreviousImage wrap
    /// the image index around the group; a label plans the move of the
    /// whole current group (all its files, in order) into the directory
    /// `DD-MM-YYYY_<label>` and advances to the next group, first image.
    pub fn step(&mut self, cmd: UserCommand) -> (r: StepOutcome)
        requires
            old(self).wf(),
            !old(self).finished(),
        ensures
            final(self).wf(),
            final(self).groups == old(self).groups,
            match cmd {
                UserCommand::Quit => *final(self) == *old(self) && r is Aborted,
                UserCommand::NextImage => {
                    &&& r is Continue
                    &&& final(self).group_idx == old(self).group_idx
                    &&& final(self).image_idx as int == next_index_spec(
                        old(self).image_idx as int,
                        old(self).current_group_spec().files@.len() as int,
                    )
                },
                UserCommand::PreviousImage => {
                    &&& r is Continue
                    &&& final(self).group_idx == old(self).group_idx
                    &&& final(self).image_idx as int == prev_index_spec(
                        old(self).image_idx as int,
                        old(self).current_group_spec().files@.len() as int,
                    )
                },
                UserCommand::Label(label) => {
                    &&& r matches StepOutcome::Moved(p)
                    &&& p.dir_name@ == dir_name_spec(old(self).current_group_spec().date, label@)
                    &&& p.files@ == old(self).current_group_spec().files@
                    &&& final(self).group_idx == old(self).group_idx + 1
                    &&& final(self).image_idx == 0
                },
            },
    {
        let len = self.groups.groups[self.group_idx].files.len();
        let ghost n = len as int;
        let ghost i = self.image_idx as int;
        match cmd {
            UserCommand::Quit => StepOutcome::Aborted,
            UserCommand::NextImage => {
                self.image_idx = (self.image_idx + 1) % len;
                proof {
                    lemma_mod_bound(i + 1, n);
                }
                StepOutcome::Continue
            },
            UserCommand::PreviousImage => {
                if self.image_idx == 0 {
                    self.image_idx = len - 1;
                    proof {
                        lemma_mod_multiples_vanish(1, -1, n);
                        lemma_mod_bound(n - 1, n);
                        lemma_small_mod((n - 1) as nat, n as nat);
                    }
                } else {
                    self.image_idx = self.image_idx - 1;
                    proof {
                        lemma_mod_multiples_vanish(1, i - 1, n);
                        lemma_small_mod((i - 1) as nat, n as nat);
                    }
                }
                StepOutcome::Continue
            },
            UserCommand::Label(label) => {
                proof {
                    reveal_strlit("_");
                }
                let date = self.groups.groups[self.group_idx].date;
                let mut dir = date.format_dd_mm_yyyy();
                dir.append("_");
                dir.append(label.as_str());
                proof {
                    assert(dir@ =~= dir_name_spec(date, label@));
                }
                let files = clone_names(&self.groups.groups[self.group_idx].files);
                let glen = self.groups.groups.len();
                proof {
                    assert(self.group_idx < glen);
                }
                self.group_idx = self.group_idx + 1;
                self.image_idx = 0;
                StepOutcome::Moved(RelocationPlan { dir_name: dir, files })
            },
        }
    }
}

fn clone_names(v: &Vec<String>) -> (r: Vec<String>)
    ensures
        r@ == v@,
{
    let mut r: Vec<String> = Vec::new();
    let mut k: usize = 0;
    while k < v.len()
        invariant
            k <= v@.len(),
            r@ == v@.subrange(0, k as int),
        decreases v@.len() - k,
    {
        r.push(v[k].clone());
        proof {
            assert(r@ =~= v@.subrange(0, k as int + 1));
        }
        k += 1;
    }
    proof {
        assert(v@.subrange(0, v@.len() as int) =~= v@);
    }
    r
}

/// The image index after `k` NextImage steps from `i` in a group of `n`.
pub open spec fn iterate_next(i: int, n: int, k: nat) -> int
    decreases k,
{
    if k == 0 {
        i
    } else {
        next_index_spec(iterate_next(i, n, (k - 1) as nat), n)
    }
}

/// The image index after `k` PreviousImage steps from `i` in a group of `n`.
pub open spec fn iterate_prev(i: int, n: int, k: nat) -> int
    decreases k,
{
    if k == 0 {
        i
    } else {
        prev_index_spec(iterate_prev(i, n, (k - 1) as nat), n)
    }
}

proof fn lemma_iterate_next_formula(i: int, n: int, k: nat)
    requires
        0 <= i < n,
    ensures
        iterate_next(i, n, k) == (i + k) % n,
    decreases k,
{
    if k == 0 {
        lemma_small_mod(i as nat, n as nat);
    } else {
        lemma_iterate_next_formula(i, n, (k - 1) as nat);
        lemma_add_mod_noop_right(1, i + k - 1, n);
        assert(iterate_next(i, n, k) == (1 + (i + k - 1) % n) % n);
    }
}

proof fn lemma_next_of_prev(i: int, n: int)
    requires
        0 <= i < n,
    ensures
        next_index_spec(prev_index_spec(i, n), n) == i,
{
    lemma_add_mod_noop_right(1, i + n - 1, n);
    assert(next_index_spec(prev_index_spec(i, n), n) == (i + n) % n);
    lemma_mod_multiples_vanish(1, i, n);
    lemma_small_mod(i as nat, n as nat);
}

proof fn lemma_peel_next(i: int, n: int, k: nat)
    requires
        k > 0,
        0 < n,
    ensures
        iterate_next(i, n, k) == iterate_next(next_index_spec(i, n), n, (k - 1) as nat),
    decreases k,
{
    if k == 1 {
        assert(iterate_next(i, n, 1) == next_index_spec(iterate_next(i, n, 0), n));
    } else {
        lemma_peel_next(i, n, (k - 1) as nat);
        assert(iterate_next(i, n, k) == next_index_spec(iterate_next(i, n, (k - 1) as nat), n));
        assert(iterate_next(next_index_spec(i, n), n, (k - 1) as nat) == next_index_spec(
            iterate_next(next_index_spec(i, n), n, (k - 2) as nat),
            n,
        ));
    }
}

proof fn lemma_cancel(i: int, n: int, k: nat)
    requires
        0 <= i < n,
    ensures
        0 <= iterate_prev(i, n, k) < n,
        iterate_next(iterate_prev(i, n, k), n, k) == i,
    decreases k,
{
    if k > 0 {
        lemma_cancel(i, n, (k - 1) as nat);
        let y = iterate_prev(i, n, (k - 1) as nat);
        lemma_mod_bound(y + n - 1, n);
        lemma_peel_next(prev_index_spec(y, n), n, k);
        lemma_next_of_prev(y, n);
    }
}

/// In a group of `n > 0` images, applying NextImage `n` times brings
/// the image index back to where it started.
pub proof fn lemma_next_image_cycle(i: int, n: int)
    requires
        0 <= i < n,
    ensures
        iterate_next(i, n, n as nat) == i,
{
    lemma_iterate_next_formula(i, n, n as nat);
    lemma_mod_multiples_vanish(1, i, n);
    lemma_small_mod(i as nat, n as nat);
}

/// In a group of `n > 0` images, applying PreviousImage `n` times
/// brings the image index back to where it started.
pub proof fn lemma_previous_image_cycle(i: int, n: int)
    requires
        0 <= i < n,
    ensures
        iterate_prev(i, n, n as nat) == i,
{
    lemma_cancel(i, n, n as nat);
    let x = iterate_prev(i, n, n as nat);
    lemma_iterate_next_formula(x, n, n as nat);
    lemma_mod_multiples_vanish(1, x, n);
    lemma_small_mod(x as nat, n as nat);
}

} // verus!
