use vstd::prelude::*;

use crate::error::NX_FATDRIVE_ERR_FILE_NOT_FOUND;

verus! {

/// The byte `/`.
pub const SLASH: u8 = 0x2F;

/// `s` with each run of `/` made a single `/`.
pub open spec fn spec_collapse(s: Seq<u8>) -> Seq<u8>
    decreases s.len(),
{
    if s.len() < 2 {
        s
    } else if s[0] == SLASH && s[1] == SLASH {
        spec_collapse(s.subrange(1, s.len() as int))
    } else {
        seq![s[0]] + spec_collapse(s.subrange(1, s.len() as int))
    }
}

/// `s` without the `/` bytes at its end.
pub open spec fn spec_trim_end(s: Seq<u8>) -> Seq<u8>
    decreases s.len(),
{
    if s.len() > 0 && s.last() == SLASH {
        spec_trim_end(s.drop_last())
    } else {
        s
    }
}

/// Replaces each run of `/` in `path` by a single `/`.
pub fn collapse_double_slashes(path: &[u8]) -> (r: Vec<u8>)
    ensures
        r@ == spec_collapse(path@),
{
    let mut out: Vec<u8> = Vec::new();
    let mut i: usize = 0;
    proof {
        assert(path@.subrange(0, path@.len() as int) =~= path@);
        assert(out@ + spec_collapse(path@) =~= spec_collapse(path@));
    }
    while i < path.len()
        invariant
            i <= path@.len(),
            spec_collapse(path@) == out@ + spec_collapse(path@.subrange(i as int, path@.len() as int)),
        decreases path.len() - i,
    {
        let rest = Ghost(path@.subrange(i as int, path@.len() as int));
        if i + 1 < path.len() && path[i] == SLASH && path[i + 1] == SLASH {
            proof {
                assert(rest@.subrange(1, rest@.len() as int) =~= path@.subrange(
                    i + 1,
                    path@.len() as int,
                ));
            }
            i = i + 1;
        } else {
            proof {
                assert(rest@.subrange(1, rest@.len() as int) =~= path@.subrange(
                    i + 1,
                    path@.len() as int,
                ));
                assert(out@ + spec_collapse(rest@) =~= out@.push(path@[i as int]) + spec_collapse(
                    path@.subrange(i + 1, path@.len() as int),
                ));
            }
            out.push(path[i]);
            i = i + 1;
        }
    }
    proof {
        assert(path@.subrange(i as int, path@.len() as int) =~= Seq::<u8>::empty());
        assert(out@ + Seq::<u8>::empty() =~= out@);
    }
    out
}

/// `s` without its trailing `/` bytes.
pub fn trim_trailing_slashes(s: &[u8]) -> (r: Vec<u8>)
    ensures
        r@ == spec_trim_end(s@),
{
    let mut end: usize = s.len();
    proof {
        assert(s@.subrange(0, end as int) =~= s@);
    }
    while end > 0 && s[end - 1] == SLASH
        invariant
            end <= s@.len(),
            spec_trim_end(s@) == spec_trim_end(s@.subrange(0, end as int)),
        decreases end,
    {
        proof {
            assert(s@.subrange(0, end as int).drop_last() =~= s@.subrange(0, end - 1));
        }
        end = end - 1;
    }
    let mut out: Vec<u8> = Vec::new();
    let mut i: usize = 0;
    while i < end
        invariant
            i <= end <= s@.len(),
            out@ =~= s@.subrange(0, i as int),
        decreases end - i,
    {
        out.push(s[i]);
        i = i + 1;
    }
    out
}

/// Splits `s` at its last `/`: the part before it (`None` when `s` has no
/// `/`) and the part after it.
pub fn split_last_component(s: &[u8]) -> (r: (Option<Vec<u8>>, Vec<u8>))
    ensures
        match r.0 {
            Some(parent) => {
                let k = parent@.len() as int;
                &&& k < s@.len()
                &&& s@[k] == SLASH
                &&& parent@ == s@.subrange(0, k)
                &&& r.1@ == s@.subrange(k + 1, s@.len() as int)
                &&& forall|m: int| k < m < s@.len() ==> s@[m] != SLASH
            },
            None => {
                &&& r.1@ == s@
                &&& forall|m: int| 0 <= m < s@.len() ==> s@[m] != SLASH
            },
        },
{
    let mut k: usize = s.len();
    while k > 0 && s[k - 1] != SLASH
        invariant
            k <= s@.len(),
            forall|m: int| k <= m < s@.len() ==> s@[m] != SLASH,
        decreases k,
    {
        k = k - 1;
    }
    let mut name: Vec<u8> = Vec::new();
    let mut i: usize = k;
    while i < s.len()
        invariant
            k <= i <= s@.len(),
            name@ =~= s@.subrange(k as int, i as int),
        decreases s.len() - i,
    {
        name.push(s[i]);
        i = i + 1;
    }
    if k == 0 {
        return (None, name);
    }
    let mut parent: Vec<u8> = Vec::new();
    let mut j: usize = 0;
    while j < k - 1
        invariant
            j <= k - 1,
            k <= s@.len(),
            parent@ =~= s@.subrange(0, j as int),
        decreases k - 1 - j,
    {
        parent.push(s[j]);
        j = j + 1;
    }
    (Some(parent), name)
}

/// Where a path's entry is looked up: its parent directory as split off by
/// `split_last_component` after runs of `/` were collapsed and trailing `/`
/// trimmed.
pub fn stat_target(path: &[u8]) -> (r: (Option<Vec<u8>>, Vec<u8>))
    ensures
        ({
            let t = spec_trim_end(spec_collapse(path@));
            match r.0 {
                Some(parent) => {
                    let k = parent@.len() as int;
                    &&& k < t.len()
                    &&& t[k] == SLASH
                    &&& parent@ == t.subrange(0, k)
                    &&& r.1@ == t.subrange(k + 1, t.len() as int)
                    &&& forall|m: int| k < m < t.len() ==> t[m] != SLASH
                },
                None => {
                    &&& r.1@ == t
                    &&& forall|m: int| 0 <= m < t.len() ==> t[m] != SLASH
                },
            }
        }),
{
    let collapsed = collapse_double_slashes(path);
    let trimmed = trim_trailing_slashes(collapsed.as_slice());
    split_last_component(trimmed.as_slice())
}

/// A directory entry as seen by a stat lookup.
pub struct StatCandidate {
    pub name: Vec<u8>,
    pub len: u64,
    pub attributes: u64,
}

fn bytes_equal(a: &Vec<u8>, b: &Vec<u8>) -> (r: bool)
    ensures
        r == (a@ == b@),
{
    if a.len() != b.len() {
        return false;
    }
    let mut i: usize = 0;
    while i < a.len()
        invariant
            a@.len() == b@.len(),
            i <= a@.len(),
            forall|k: int| 0 <= k < i ==> a@[k] == b@[k],
        decreases a.len() - i,
    {
        if a[i] != b[i] {
            return false;
        }
        i = i + 1;
    }
    proof {
        assert(a@ =~= b@);
    }
    true
}

/// The size and attributes of the first of `entries` whose name, without
/// trailing `/`, is `name`.
pub fn find_stat_entry(entries: &Vec<StatCandidate>, name: &Vec<u8>) -> (r: Result<(u64, u64), u32>)
    ensures
        match r {
            Ok((len, attributes)) => exists|i: int|
                0 <= i < entries@.len() && spec_trim_end(entries@[i].name@) == name@
                    && entries@[i].len == len && entries@[i].attributes == attributes && forall|
                    j: int,
                | 0 <= j < i ==> spec_trim_end(#[trigger] entries@[j].name@) != name@,
            Err(e) => e == NX_FATDRIVE_ERR_FILE_NOT_FOUND && forall|i: int|
                0 <= i < entries@.len() ==> spec_trim_end(#[trigger] entries@[i].name@) != name@,
        },
{
    let mut i: usize = 0;
    while i < entries.len()
        invariant
            i <= entries@.len(),
            forall|j: int| 0 <= j < i ==> spec_trim_end(#[trigger] entries@[j].name@) != name@,
        decreases entries.len() - i,
    {
        let trimmed = trim_trailing_slashes(entries[i].name.as_slice());
        if bytes_equal(&trimmed, name) {
            return Ok((entries[i].len, entries[i].attributes));
        }
        i = i + 1;
    }
    Err(NX_FATDRIVE_ERR_FILE_NOT_FOUND)
}

} // verus!
