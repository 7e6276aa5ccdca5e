//! Grouping media files by calendar date.
//!
//! [`group_by_date`] buckets scanned files into date groups kept in
//! ascending date order. Each group holds exactly the names of the input
//! files whose modification date matches, in input (scan) order, and
//! every input file lands in exactly one group.

use vstd::prelude::*;

use crate::date::Date;
use crate::scan::MediaFile;

verus! {

/// One date bucket: a calendar date and the files modified on that day,
/// in scan order.
pub struct DateGroup {
    pub date: Date,
    pub files: Vec<String>,
}

/// The full date-ordered mapping from date to files for one directory.
pub struct GroupedCollection {
    pub groups: Vec<DateGroup>,
}

/// The file names of a group, as character sequences.
pub open spec fn group_names(g: DateGroup) -> Seq<Seq<char>> {
    g.files@.map_values(|s: String| s@)
}

/// The names of the files in `files` whose date is `d`, in input order.
pub open spec fn names_with_date(files: Seq<MediaFile>, d: Date) -> Seq<Seq<char>>
    decreases files.len(),
{
    if files.len() == 0 {
        Seq::empty()
    } else {
        let rest = names_with_date(files.drop_last(), d);
        if files.last().date == d {
            rest.push(files.last().name@)
        } else {
            rest
        }
    }
}

/// Some group in `gs` carries the date `d`.
pub open spec fn has_group_for(gs: Seq<DateGroup>, d: Date) -> bool {
    exists|i: int| 0 <= i < gs.len() && (#[trigger] gs[i]).date == d
}

/// Group dates are strictly ascending (and hence pairwise distinct).
pub open spec fn sorted_distinct(gs: Seq<DateGroup>) -> bool {
    forall|i: int, j: int|
        0 <= i < j < gs.len() ==> (#[trigger] gs[i]).date.lt((#[trigger] gs[j]).date)
}

impl GroupedCollection {
    /// Groups are in strictly ascending date order, dates are
    /// well-formed, and no group is empty.
    pub open spec fn wf(self) -> bool {
        &&& sorted_distinct(self.groups@)
        &&& forall|i: int| 0 <= i < self.groups@.len() ==> (#[trigger] self.groups@[i]).date.wf()
        &&& forall|i: int|
            0 <= i < self.groups@.len() ==> (#[trigger] self.groups@[i]).files@.len() > 0
    }

    /// This collection is exactly the grouping of `files` by date: each
    /// group holds the names of the files with its date in input order,
    /// and every file's date has a group.
    pub open spec fn groups_of(self, files: Seq<MediaFile>) -> bool {
        &&& forall|i: int|
            0 <= i < self.groups@.len() ==> group_names(#[trigger] self.groups@[i])
                == names_with_date(files, self.groups@[i].date)
        &&& forall|t: int|
            0 <= t < files.len() ==> has_group_for(self.groups@, (#[trigger] files[t]).date)
    }
}

/// Calendar order is total: two dates are equal or one is strictly
/// before the other.
pub proof fn lemma_date_total(a: Date, b: Date)
    ensures
        a == b || a.lt(b) || b.lt(a),
        !(a.lt(b) && b.lt(a)),
        !a.lt(a),
{
    if !a.lt(b) && !b.lt(a) {
        assert(a.year == b.year && a.month == b.month && a.day == b.day);
        assert(a == b);
    }
}

proof fn lemma_names_with_date_push(files: Seq<MediaFile>, f: MediaFile, d: Date)
    ensures
        f.date == d ==> names_with_date(files.push(f), d) == names_with_date(files, d).push(
            f.name@,
        ),
        f.date != d ==> names_with_date(files.push(f), d) == names_with_date(files, d),
{
    assert(files.push(f).drop_last() =~= files);
    assert(files.push(f).last() == f);
}

proof fn lemma_names_with_date_empty(files: Seq<MediaFile>, d: Date)
    requires
        forall|t: int| 0 <= t < files.len() ==> (#[trigger] files[t]).date != d,
    ensures
        names_with_date(files, d) == Seq::<Seq<char>>::empty(),
    decreases files.len(),
{
    if files.len() > 0 {
        assert(forall|t: int|
            0 <= t < files.drop_last().len() ==> (#[trigger] files.drop_last()[t]).date != d);
        lemma_names_with_date_empty(files.drop_last(), d);
        assert(files.last().date != d);
    }
}

proof fn lemma_names_with_date_contains(files: Seq<MediaFile>, d: Date, t: int)
    requires
        0 <= t < files.len(),
        files[t].date == d,
    ensures
        names_with_date(files, d).contains(files[t].name@),
    decreases files.len(),
{
    if t == files.len() - 1 {
        let names = names_with_date(files, d);
        assert(names.last() == files[t].name@);
        assert(names.contains(files[t].name@));
    } else {
        lemma_names_with_date_contains(files.drop_last(), d, t);
        let rest = names_with_date(files.drop_last(), d);
        let idx = choose|idx: int| 0 <= idx < rest.len() && rest[idx] == files[t].name@;
        assert(names_with_date(files, d)[idx] == files[t].name@);
    }
}

/// Each input file lands in exactly one group: some group carries its
/// date, no two groups do, and that group's file names contain the
/// file's name.
pub proof fn lemma_each_file_in_one_group(files: Seq<MediaFile>, c: GroupedCollection, t: int)
    requires
        c.wf(),
        c.groups_of(files),
        0 <= t < files.len(),
    ensures
        has_group_for(c.groups@, files[t].date),
        forall|i: int, j: int|
            0 <= i < c.groups@.len() && 0 <= j < c.groups@.len() && (
            #[trigger] c.groups@[i]).date == files[t].date && (#[trigger] c.groups@[j]).date
                == files[t].date ==> i == j,
        forall|i: int|
            0 <= i < c.groups@.len() && (#[trigger] c.groups@[i]).date == files[t].date
                ==> group_names(c.groups@[i]).contains(files[t].name@),
{
    assert forall|i: int, j: int|
        0 <= i < c.groups@.len() && 0 <= j < c.groups@.len() && (#[trigger] c.groups@[i]).date
            == files[t].date && (#[trigger] c.groups@[j]).date == files[t].date implies i == j by {
        if i < j {
            assert(c.groups@[i].date.lt(c.groups@[j].date));
        } else if j < i {
            assert(c.groups@[j].date.lt(c.groups@[i].date));
        }
    }
    assert forall|i: int|
        0 <= i < c.groups@.len() && (#[trigger] c.groups@[i]).date
            == files[t].date implies group_names(c.groups@[i]).contains(files[t].name@) by {
        lemma_names_with_date_contains(files, files[t].date, t);
        assert(group_names(c.groups@[i]) == names_with_date(files, c.groups@[i].date));
    }
}

/// No bucket is invented: every group's date is the date of some input
/// file, so the groups are exactly the distinct dates of the input.
pub proof fn lemma_group_dates_from_files(files: Seq<MediaFile>, c: GroupedCollection, i: int)
    requires
        c.wf(),
        c.groups_of(files),
        0 <= i < c.groups@.len(),
    ensures
        exists|t: int| 0 <= t < files.len() && (#[trigger] files[t]).date == c.groups@[i].date,
{
    let d = c.groups@[i].date;
    if forall|t: int| 0 <= t < files.len() ==> (#[trigger] files[t]).date != d {
        lemma_names_with_date_empty(files, d);
        assert(group_names(c.groups@[i]).len() == 0);
        assert(c.groups@[i].files@.len() > 0);
        assert(group_names(c.groups@[i]).len() == c.groups@[i].files@.len());
    }
}

/// Buckets the files by their modification date. The result is in
/// strictly ascending date order; each group holds exactly the names of
/// the input files with its date, in input order; and every input
/// file's date has a group, so every file appears in exactly one group.
pub fn group_by_date(files: Vec<MediaFile>) -> (r: GroupedCollection)
    requires
        forall|t: int| 0 <= t < files@.len() ==> (#[trigger] files@[t]).date.wf(),
    ensures
        r.wf(),
        r.groups_of(files@),
{
    let mut groups: Vec<DateGroup> = Vec::new();
    let mut k: usize = 0;
    while k < files.len()
        invariant
            k <= files@.len(),
            forall|t: int| 0 <= t < files@.len() ==> (#[trigger] files@[t]).date.wf(),
            sorted_distinct(groups@),
            forall|i: int| 0 <= i < groups@.len() ==> (#[trigger] groups@[i]).date.wf(),
            forall|i: int| 0 <= i < groups@.len() ==> (#[trigger] groups@[i]).files@.len() > 0,
            forall|i: int|
                0 <= i < groups@.len() ==> group_names(#[trigger] groups@[i]) == names_with_date(
                    files@.subrange(0, k as int),
                    groups@[i].date,
                ),
            forall|i: int|
                0 <= i < groups@.len() ==> exists|t: int|
                    0 <= t < k && (#[trigger] files@[t]).date == (#[trigger] groups@[i]).date,
            forall|t: int| 0 <= t < k ==> has_group_for(groups@, (#[trigger] files@[t]).date),
        decreases files@.len() - k,
    {
        let d = files[k].date;
        let name = files[k].name.clone();
        let ghost prefix = files@.subrange(0, k as int);
        let ghost fk = files@.subrange(0, k as int + 1);
        proof {
            assert(fk =~= prefix.push(files@[k as int]));
            lemma_names_with_date_push(prefix, files@[k as int], d);
        }
        let mut i: usize = 0;
        while i < groups.len() && groups[i].date.before(&d)
            invariant
                i <= groups@.len(),
                forall|t: int| 0 <= t < i ==> (#[trigger] groups@[t]).date.lt(d),
            decreases groups@.len() - i,
        {
            i += 1;
        }
        let ghost old_gs = groups@;
        if i < groups.len() && groups[i].date == d {
            // the date already has a group: append in scan order
            let mut g = groups.remove(i);
            g.files.push(name);
            let ghost g2 = g;
            groups.insert(i, g);
            proof {
                assert(groups@ =~= old_gs.update(i as int, g2));
                assert(g2.date == d);
                assert(g2.files@ =~= old_gs[i as int].files@.push(files@[k as int].name));
                assert(group_names(g2) =~= group_names(old_gs[i as int]).push(
                    files@[k as int].name@,
                ));
                assert forall|t: int|
                    0 <= t < groups@.len() implies group_names(#[trigger] groups@[t])
                    == names_with_date(fk, groups@[t].date) by {
                    if t == i as int {
                        assert(group_names(g2) == names_with_date(prefix, d).push(
                            files@[k as int].name@,
                        ));
                    } else {
                        lemma_date_total(old_gs[t].date, d);
                        assert(old_gs[t].date != d);
                        lemma_names_with_date_push(prefix, files@[k as int], old_gs[t].date);
                    }
                }
                assert forall|t: int|
                    0 <= t < k + 1 implies has_group_for(groups@, (#[trigger] files@[t]).date) by {
                    if t < k {
                        let ii = choose|ii: int|
                            0 <= ii < old_gs.len() && (#[trigger] old_gs[ii]).date
                                == files@[t].date;
                        assert(groups@[ii].date == files@[t].date);
                    } else {
                        assert(groups@[i as int].date == files@[t].date);
                    }
                }
                assert forall|ii: int|
                    0 <= ii < groups@.len() implies exists|t: int|
                        0 <= t < k + 1 && (#[trigger] files@[t]).date == (
                        #[trigger] groups@[ii]).date by {
                    if ii == i as int {
                        assert(files@[k as int].date == groups@[ii].date);
                    } else {
                        let t = choose|t: int|
                            0 <= t < k && (#[trigger] files@[t]).date == old_gs[ii].date;
                        assert(files@[t].date == groups@[ii].date);
                    }
                }
            }
        } else {
            // no group for this date yet: insert one at the sorted position
            proof {
                if i < groups@.len() {
                    lemma_date_total(groups@[i as int].date, d);
                }
                assert forall|t: int|
                    i <= t < groups@.len() implies d.lt((#[trigger] groups@[t]).date) by {
                    assert(d.lt(groups@[i as int].date));
                }
                assert forall|t: int|
                    0 <= t < groups@.len() implies (#[trigger] groups@[t]).date != d by {
                    lemma_date_total(groups@[t].date, d);
                }
                assert forall|t: int| 0 <= t < k implies (#[trigger] files@[t]).date != d by {
                    if files@[t].date == d {
                        assert(has_group_for(groups@, files@[t].date));
                        let ii = choose|ii: int|
                            0 <= ii < groups@.len() && (#[trigger] groups@[ii]).date
                                == files@[t].date;
                        assert(groups@[ii].date != d);
                    }
                }
                lemma_names_with_date_empty(prefix, d);
            }
            let mut v: Vec<String> = Vec::new();
            v.push(name);
            let g = DateGroup { date: d, files: v };
            let ghost newg = g;
            groups.insert(i, g);
            proof {
                assert(groups@ =~= old_gs.insert(i as int, newg));
                assert(group_names(newg) =~= Seq::<Seq<char>>::empty().push(
                    files@[k as int].name@,
                ));
                assert forall|a: int, b: int|
                    0 <= a < b < groups@.len() implies (#[trigger] groups@[a]).date.lt(
                    (#[trigger] groups@[b]).date) by {
                    if a < i as int && b == i as int {
                        assert(old_gs[a].date.lt(d));
                    } else if a == i as int {
                        assert(d.lt(old_gs[b - 1].date));
                    } else if a < i as int && b > i as int {
                        assert(old_gs[a].date.lt(d) && d.lt(old_gs[b - 1].date));
                    }
                }
                assert forall|t: int|
                    0 <= t < groups@.len() implies group_names(#[trigger] groups@[t])
                    == names_with_date(fk, groups@[t].date) by {
                    if t == i as int {
                        assert(group_names(newg) == names_with_date(prefix, d).push(
                            files@[k as int].name@,
                        ));
                    } else {
                        let og = if t < i as int {
                            old_gs[t]
                        } else {
                            old_gs[t - 1]
                        };
                        assert(groups@[t] == og);
                        assert(og.date != d);
                        lemma_names_with_date_push(prefix, files@[k as int], og.date);
                    }
                }
                assert forall|t: int|
                    0 <= t < k + 1 implies has_group_for(groups@, (#[trigger] files@[t]).date) by {
                    if t < k {
                        let ii = choose|ii: int|
                            0 <= ii < old_gs.len() && (#[trigger] old_gs[ii]).date
                                == files@[t].date;
                        let ni = if ii < i as int {
                            ii
                        } else {
                            ii + 1
                        };
                        assert(groups@[ni].date == files@[t].date);
                    } else {
                        assert(groups@[i as int].date == files@[t].date);
                    }
                }
                assert forall|ii: int|
                    0 <= ii < groups@.len() implies exists|t: int|
                        0 <= t < k + 1 && (#[trigger] files@[t]).date == (
                        #[trigger] groups@[ii]).date by {
                    if ii == i as int {
                        assert(files@[k as int].date == groups@[ii].date);
                    } else {
                        let oi = if ii < i as int {
                            ii
                        } else {
                            ii - 1
                        };
                        let t = choose|t: int|
                            0 <= t < k && (#[trigger] files@[t]).date == old_gs[oi].date;
                        assert(files@[t].date == groups@[ii].date);
                    }
                }
            }
        }
        k += 1;
    }
    proof {
        assert(files@.subrange(0, k as int) =~= files@);
    }
    GroupedCollection { groups }
}

} // verus!
