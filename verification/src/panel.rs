//! Selection and tab state of the capture console.
//!
//! The console shows a packets tab and a processes tab; each keeps a
//! selected row. These helpers hold the pure movement rules: stepping the
//! selection up or down clamps at the ends, an empty tree keeps its
//! selection, the tab key toggles between the two tabs, and the sort key
//! cycles the process ordering.

use vstd::prelude::*;

verus! {

/// Which tab of the console is active.
#[derive(Clone, Copy, Debug, PartialEq, Eq, Structural)]
pub enum ActiveTab {
    Packets,
    Processes,
}

/// The column the process table is sorted by.
#[derive(Clone, Copy, Debug, PartialEq, Eq, Structural)]
pub enum ProcessSort {
    Pid,
    Cpu,
    Mem,
}

/// The tab reached from `t` by one toggle.
pub open spec fn other_tab(t: ActiveTab) -> ActiveTab {
    match t {
        ActiveTab::Packets => ActiveTab::Processes,
        ActiveTab::Processes => ActiveTab::Packets,
    }
}

/// Toggles between the two tabs.
pub fn switch_tab(t: ActiveTab) -> (r: ActiveTab)
    ensures
        r == other_tab(t),
        other_tab(r) == t,
{
    match t {
        ActiveTab::Packets => ActiveTab::Processes,
        ActiveTab::Processes => ActiveTab::Packets,
    }
}

/// The sort order after one press of the sort key: usage first, then
/// memory, then pid, and around again.
pub open spec fn next_sort(s: ProcessSort) -> ProcessSort {
    match s {
        ProcessSort::Cpu => ProcessSort::Mem,
        ProcessSort::Mem => ProcessSort::Pid,
        ProcessSort::Pid => ProcessSort::Cpu,
    }
}

/// Cycles the process sort order.
pub fn cycle_sort(s: ProcessSort) -> (r: ProcessSort)
    ensures
        r == next_sort(s),
{
    match s {
        ProcessSort::Cpu => ProcessSort::Mem,
        ProcessSort::Mem => ProcessSort::Pid,
        ProcessSort::Pid => ProcessSort::Cpu,
    }
}

/// The row selected after stepping down in a table of `len` rows: from
/// nothing the first row, otherwise one further, stopping at the last row
/// (and at row zero when the table is empty).
pub open spec fn step_down(sel: Option<usize>, len: usize) -> usize {
    match sel {
        Option::Some(i) => if i + 1 < len {
            (i + 1) as usize
        } else {
            i
        },
        Option::None => 0,
    }
}

/// The row selected after stepping up: from nothing the first row,
/// otherwise one back, stopping at row zero.
pub open spec fn step_up(sel: Option<usize>) -> usize {
    match sel {
        Option::Some(i) => if i == 0 {
            0
        } else {
            (i - 1) as usize
        },
        Option::None => 0,
    }
}

/// Steps the selection one row down, clamping at the end of the table.
pub fn next_index(sel: Option<usize>, len: usize) -> (r: usize)
    ensures
        r == step_down(sel, len),
{
    match sel {
        Some(i) => {
            if len > 0 && i < len - 1 {
                i + 1
            } else {
                i
            }
        },
        None => 0,
    }
}

/// Steps the selection one row up, clamping at the first row.
pub fn prev_index(sel: Option<usize>) -> (r: usize)
    ensures
        r == step_up(sel),
{
    match sel {
        Some(i) => if i == 0 {
            0
        } else {
            i - 1
        },
        None => 0,
    }
}

/// The first position of `pid` in the refreshed process list.
pub open spec fn first_index_of(pids: Seq<u32>, pid: u32) -> Option<int>
    decreases pids.len(),
{
    if pids.len() == 0 {
        None
    } else if pids[0] == pid {
        Some(0int)
    } else {
        match first_index_of(pids.drop_first(), pid) {
            Some(i) => Some(i + 1),
            None => None,
        }
    }
}

/// Where the selection lands after the process list is rebuilt: the row of
/// the previously selected process when it is still listed, else the first
/// row of a non-empty list, else nowhere; with no previous process the
/// selection only moves onto the first row when it was empty.
pub open spec fn reselect_spec(
    prev_pid: Option<u32>,
    prev_sel: Option<usize>,
    pids: Seq<u32>,
) -> Option<int> {
    match prev_pid {
        Some(pid) => match first_index_of(pids, pid) {
            Some(i) => Some(i),
            None => if pids.len() == 0 {
                None
            } else {
                Some(0int)
            },
        },
        None => if pids.len() == 0 {
            None
        } else {
            match prev_sel {
                Some(i) => Some(i as int),
                None => Some(0int),
            }
        },
    }
}

/// Re-applies the selection after the process list was rebuilt, keeping
/// the same process selected whenever it survived the refresh.
pub fn reselect(prev_pid: Option<u32>, prev_sel: Option<usize>, pids: &Vec<u32>) -> (r: Option<
    usize,
>)
    ensures
        match reselect_spec(prev_pid, prev_sel, pids@) {
            Some(i) => r matches Some(k) && k as int == i,
            None => r is None,
        },
{
    match prev_pid {
        Some(pid) => {
            let mut i: usize = 0;
            proof {
                assert(pids@.skip(0) =~= pids@);
            }
            while i < pids.len()
                invariant
                    prev_pid == Some(pid),
                    i <= pids@.len(),
                    first_index_of(pids@, pid) == match first_index_of(
                        pids@.skip(i as int),
                        pid,
                    ) {
                        Some(k) => Some(k + i),
                        None => None::<int>,
                    },
                decreases pids@.len() - i,
            {
                proof {
                    assert(pids@.skip(i as int)[0] == pids@[i as int]);
                    assert(pids@.skip(i as int).drop_first() =~= pids@.skip(i + 1));
                }
                if pids[i] == pid {
                    proof {
                        assert(first_index_of(pids@.skip(i as int), pid) == Some(0int));
                    }
                    return Some(i);
                }
                i = i + 1;
            }
            proof {
                assert(pids@.skip(i as int).len() == 0);
            }
            if pids.len() == 0 {
                None
            } else {
                Some(0)
            }
        },
        None => {
            if pids.len() == 0 {
                None
            } else {
                match prev_sel {
                    Some(i) => Some(i),
                    None => Some(0),
                }
            }
        },
    }
}

/// Steps the selection in the protocol tree, which keeps its selection
/// (even none) while the tree is empty.
pub fn tree_next_index(sel: Option<usize>, len: usize) -> (r: Option<usize>)
    ensures
        len == 0 ==> r == sel,
        len > 0 ==> r == Some(step_down(sel, len)),
{
    if len == 0 {
        sel
    } else {
        Some(next_index(sel, len))
    }
}

/// Steps the tree selection one row up; an empty tree keeps its selection.
pub fn tree_prev_index(sel: Option<usize>, len: usize) -> (r: Option<usize>)
    ensures
        len == 0 ==> r == sel,
        len > 0 ==> r == Some(step_up(sel)),
{
    if len == 0 {
        sel
    } else {
        Some(prev_index(sel))
    }
}

} // verus!
