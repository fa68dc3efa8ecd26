//! Decisions of the surrounding trigger loop: which wallpaper entry a
//! state change makes active, and how long to back off after failures.
//! The loop itself — watching the settings bus, reading and writing the
//! stores — is the caller's.

use vstd::prelude::*;

verus! {

/// Two raised to the given power, saturated at the largest 64-bit value.
pub open spec fn pow2_capped(e: nat) -> int
    decreases e,
{
    if e == 0 {
        1
    } else {
        let p = pow2_capped((e - 1) as nat);
        if 2 * p > u64::MAX {
            u64::MAX as int
        } else {
            2 * p
        }
    }
}

/// How long the loop sleeps after `fail_count` consecutive failures:
/// exponential backoff in seconds, capped by the configured wallpaper
/// rotation period when there is one.
pub fn backoff_secs(fail_count: u32, rotation: Option<u64>) -> (r: u64)
    ensures
        ({
            let p = pow2_capped(fail_count as nat);
            match rotation {
                Some(d) => r == if p < d {
                    p
                } else {
                    d as int
                },
                None => r == p,
            }
        }),
{
    let mut pw: u64 = 1;
    let mut i: u32 = 0;
    while i < fail_count
        invariant
            0 <= i <= fail_count,
            pw == pow2_capped(i as nat),
        decreases fail_count - i,
    {
        if pw <= u64::MAX / 2 {
            pw = pw * 2;
        } else {
            pw = u64::MAX;
        }
        i += 1;
    }
    match rotation {
        Some(d) => if pw < d {
            pw
        } else {
            d
        },
        None => pw,
    }
}

/// One wallpaper assignment of the state: the output's name, the source
/// in its serialized form, and whether the source is a file path.
#[derive(Clone, Debug)]
pub struct WallpaperEntry {
    /// The output the wallpaper is assigned to.
    pub name: Vec<u8>,
    /// The wallpaper source, serialized.
    pub source: Vec<u8>,
    /// Whether the source is a file path a derivation can run on.
    pub is_path: bool,
}

/// Whether two entries carry the same source.
pub open spec fn same_source(a: WallpaperEntry, b: WallpaperEntry) -> bool {
    a.source@ == b.source@ && a.is_path == b.is_path
}

/// Compare two byte lists by value.
fn bytes_eq(a: &Vec<u8>, b: &Vec<u8>) -> (r: bool)
    ensures
        r == (a@ == b@),
{
    let r = a == b;
    proof {
        if r {
            assert(a@ =~= b@);
        }
    }
    r
}

/// Index of the first entry of the prefix carrying the given name, -1
/// when the prefix holds none.
pub open spec fn first_name_upto(prev: Seq<WallpaperEntry>, name: Seq<u8>, n: int) -> int
    decreases n,
{
    if n <= 0 {
        -1
    } else {
        let p = first_name_upto(prev, name, n - 1);
        if p != -1 {
            p
        } else if prev[n - 1].name@ == name {
            n - 1
        } else {
            -1
        }
    }
}

/// Whether an entry counts as changed against the previous state: the
/// previous state has no entry of that name, or the first entry of that
/// name carries another source.
pub open spec fn entry_changed(prev: Seq<WallpaperEntry>, e: WallpaperEntry) -> bool {
    let j = first_name_upto(prev, e.name@, prev.len() as int);
    j == -1 || !same_source(prev[j], e)
}

/// Index of the first changed entry of the prefix, -1 when the prefix
/// holds none.
pub open spec fn first_changed_upto(
    prev: Seq<WallpaperEntry>,
    cur: Seq<WallpaperEntry>,
    n: int,
) -> int
    decreases n,
{
    if n <= 0 {
        -1
    } else {
        let p = first_changed_upto(prev, cur, n - 1);
        if p != -1 {
            p
        } else if entry_changed(prev, cur[n - 1]) {
            n - 1
        } else {
            -1
        }
    }
}

/// Once found, the first name match stays the same on longer prefixes.
proof fn lemma_first_name_stable(prev: Seq<WallpaperEntry>, name: Seq<u8>, n: int, m: int)
    requires
        0 <= n <= m,
        first_name_upto(prev, name, n) != -1,
    ensures
        first_name_upto(prev, name, m) == first_name_upto(prev, name, n),
    decreases m - n,
{
    if m > n {
        lemma_first_name_stable(prev, name, n, m - 1);
    }
}

/// Once found, the first changed entry stays the same on longer prefixes.
proof fn lemma_first_changed_stable(
    prev: Seq<WallpaperEntry>,
    cur: Seq<WallpaperEntry>,
    n: int,
    m: int,
)
    requires
        0 <= n <= m,
        first_changed_upto(prev, cur, n) != -1,
    ensures
        first_changed_upto(prev, cur, m) == first_changed_upto(prev, cur, n),
    decreases m - n,
{
    if m > n {
        lemma_first_changed_stable(prev, cur, n, m - 1);
    }
}

/// Decide whether an entry counts as changed against the previous state.
fn is_entry_changed(prev: &Vec<WallpaperEntry>, e: &WallpaperEntry) -> (r: bool)
    ensures
        r == entry_changed(prev@, *e),
{
    let mut j: usize = 0;
    while j < prev.len()
        invariant
            0 <= j <= prev@.len(),
            first_name_upto(prev@, e.name@, j as int) == -1,
        decreases prev@.len() - j,
    {
        if bytes_eq(&prev[j].name, &e.name) {
            proof {
                assert(first_name_upto(prev@, e.name@, j + 1) == j);
                lemma_first_name_stable(prev@, e.name@, j + 1, prev@.len() as int);
            }
            let same = bytes_eq(&prev[j].source, &e.source) && prev[j].is_path == e.is_path;
            return !same;
        }
        j += 1;
    }
    true
}

/// The index of the wallpaper entry a state change makes active: the
/// first entry whose source differs from the previous state's entry of
/// the same name (or that the previous state lacks); with no previous
/// state, and when nothing differs, the first entry; -1 when the state
/// has no entries.
pub open spec fn changed_index(prev: Option<Seq<WallpaperEntry>>, cur: Seq<WallpaperEntry>) -> int {
    if cur.len() == 0 {
        -1
    } else {
        match prev {
            None => 0,
            Some(p) => {
                let i = first_changed_upto(p, cur, cur.len() as int);
                if i == -1 {
                    0
                } else {
                    i
                }
            },
        }
    }
}

/// Find the wallpaper entry a state change makes active.
pub fn changed_wallpaper(
    prev: Option<&Vec<WallpaperEntry>>,
    current: &Vec<WallpaperEntry>,
) -> (r: Option<usize>)
    ensures
        ({
            let pv = match prev {
                Some(p) => Some(p@),
                None => None,
            };
            &&& (changed_index(pv, current@) == -1 <==> r is None)
            &&& (r matches Some(k) ==> k as int == changed_index(pv, current@))
        }),
{
    match prev {
        None => {
            if current.len() == 0 {
                None
            } else {
                Some(0)
            }
        },
        Some(p) => {
            let mut i: usize = 0;
            while i < current.len()
                invariant
                    0 <= i <= current@.len(),
                    prev == Some(p),
                    first_changed_upto(p@, current@, i as int) == -1,
                decreases current@.len() - i,
            {
                if is_entry_changed(p, &current[i]) {
                    proof {
                        assert(first_changed_upto(p@, current@, i + 1) == i);
                        lemma_first_changed_stable(p@, current@, i + 1, current@.len() as int);
                    }
                    return Some(i);
                }
                i += 1;
            }
            if current.len() == 0 {
                None
            } else {
                Some(0)
            }
        },
    }
}

} // verus!
