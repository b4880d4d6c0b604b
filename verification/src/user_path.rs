//! The PATH-widening rules: GUI-launched processes do not inherit an
//! interactive shell's PATH, so the launcher assembles one from known
//! install locations and the system PATH. Reading the environment and
//! testing which directories exist is the embedding application's work;
//! the splitting, deduplication and candidate building are verified here.

use vstd::prelude::*;
use vstd::string::StrSliceExecFns;
use vstd::string::StringExecFns;
use crate::text;

verus! {

/// The views of a list of strings.
pub open spec fn views_of(s: Seq<String>) -> Seq<Seq<char>> {
    s.map_values(|x: String| x@)
}

/// Pieces joined with one colon between neighbours.
pub open spec fn joined_colon(parts: Seq<Seq<char>>) -> Seq<char>
    decreases parts.len(),
{
    if parts.len() == 0 {
        Seq::empty()
    } else if parts.len() == 1 {
        parts[0]
    } else {
        joined_colon(parts.drop_last()) + seq![':'] + parts.last()
    }
}

/// No piece contains a colon.
pub open spec fn colon_free(parts: Seq<Seq<char>>) -> bool {
    forall|i: int, j: int|
        0 <= i < parts.len() && 0 <= j < parts[i].len() ==> #[trigger] parts[i][j] != ':'
}

/// Splits on colons. The contract pins the result down completely: the
/// pieces contain no colon and joining them with colons restores the
/// input, which no other piece list can do.
pub fn split_colon(s: &str) -> (r: Vec<String>)
    ensures
        r@.len() >= 1,
        joined_colon(views_of(r@)) == s@,
        colon_free(views_of(r@)),
{
    let len: usize = s.unicode_len();
    let mut out: Vec<String> = Vec::new();
    let mut piece_start: usize = 0;
    let mut i: usize = 0;
    while i < len
        invariant
            piece_start <= i <= len,
            len == s@.len(),
            joined_colon(views_of(out@).push(s@.subrange(piece_start as int, i as int))) == s@
                .subrange(0, i as int),
            colon_free(views_of(out@)),
            forall|j: int| piece_start <= j < i ==> s@[j] != ':',
        decreases len - i,
    {
        let c = s.get_char(i);
        if c == ':' {
            let ghost parts = views_of(out@);
            let ghost piece = s@.subrange(piece_start as int, i as int);
            let p = s.substring_char(piece_start, i);
            out.push(String::from_str(p));
            proof {
                assert(views_of(out@) =~= parts.push(piece));
                let parts2 = parts.push(piece);
                let empty_next = s@.subrange(i + 1, i + 1);
                assert(empty_next =~= Seq::<char>::empty());
                assert(parts2.push(empty_next).drop_last() =~= parts2);
                assert(joined_colon(parts2.push(empty_next)) == joined_colon(parts2) + seq![':']
                    + empty_next);
                assert(joined_colon(parts2) + seq![':'] + empty_next =~= s@.subrange(0, i + 1));
                assert forall|x: int, y: int|
                    0 <= x < parts2.len() && 0 <= y < parts2[x].len() implies #[trigger] parts2[x][y]
                    != ':' by {
                    if x < parts.len() {
                        assert(parts2[x] == parts[x]);
                    } else {
                        assert(parts2[x] == piece);
                        assert(piece[y] == s@[piece_start + y]);
                    }
                }
            }
            piece_start = i + 1;
        }
        i = i + 1;
        proof {
            if s@[i - 1] != ':' {
                let parts = views_of(out@);
                let before_piece = s@.subrange(piece_start as int, i - 1);
                let now_piece = s@.subrange(piece_start as int, i as int);
                let before = parts.push(before_piece);
                let now = parts.push(now_piece);
                assert(now_piece =~= before_piece.push(s@[i - 1]));
                assert(s@.subrange(0, i as int) =~= s@.subrange(0, i - 1).push(s@[i - 1]));
                if parts.len() == 0 {
                    assert(joined_colon(before) == before_piece);
                    assert(joined_colon(now) == now_piece);
                    assert(now_piece =~= s@.subrange(0, i - 1).push(s@[i - 1]));
                } else {
                    assert(before.drop_last() =~= parts);
                    assert(now.drop_last() =~= parts);
                    assert(joined_colon(before) == joined_colon(parts) + seq![':'] + before_piece);
                    assert(joined_colon(now) == joined_colon(parts) + seq![':'] + now_piece);
                    assert(joined_colon(parts) + seq![':'] + now_piece =~= (joined_colon(parts)
                        + seq![':'] + before_piece).push(s@[i - 1]));
                }
                assert(joined_colon(now) == s@.subrange(0, i as int));
            }
        }
    }
    let ghost parts = views_of(out@);
    let ghost piece = s@.subrange(piece_start as int, len as int);
    let p = s.substring_char(piece_start, len);
    out.push(String::from_str(p));
    proof {
        assert(views_of(out@) =~= parts.push(piece));
        assert(s@.subrange(0, len as int) =~= s@);
        assert forall|x: int, y: int|
            0 <= x < views_of(out@).len() && 0 <= y < views_of(out@)[x].len() implies #[trigger] views_of(
            out@,
        )[x][y] != ':' by {
            if x < parts.len() {
                assert(views_of(out@)[x] == parts[x]);
            } else {
                assert(views_of(out@)[x] == piece);
                assert(piece[y] == s@[piece_start + y]);
            }
        }
    }
    out
}

/// `base` extended by the non-empty entries of `extra`, in order, each
/// added only when not already present.
pub open spec fn merged_paths(acc: Seq<Seq<char>>, extra: Seq<Seq<char>>, k: int) -> Seq<Seq<char>>
    decreases k,
{
    if k <= 0 {
        acc
    } else {
        let prev = merged_paths(acc, extra, k - 1);
        if extra[k - 1].len() > 0 && !prev.contains(extra[k - 1]) {
            prev.push(extra[k - 1])
        } else {
            prev
        }
    }
}

fn contains_view(v: &Vec<String>, s: &str) -> (r: bool)
    ensures
        r == views_of(v@).contains(s@),
{
    let n = v.len();
    let mut i: usize = 0;
    while i < n
        invariant
            i <= n,
            n == v@.len(),
            forall|j: int| 0 <= j < i ==> (#[trigger] v@[j])@ != s@,
        decreases n - i,
    {
        if text::str_eq(v[i].as_str(), s) {
            proof {
                assert(views_of(v@)[i as int] == s@);
            }
            return true;
        }
        i = i + 1;
    }
    proof {
        if views_of(v@).contains(s@) {
            let j = choose|j: int| 0 <= j < views_of(v@).len() && views_of(v@)[j] == s@;
            assert(v@[j]@ == s@);
        }
    }
    false
}

/// Appends the system PATH's entries to the preferred install locations,
/// dropping empty entries and entries already present, preference order
/// kept.
pub fn merge_path_entries(base: Vec<String>, extra: &Vec<String>) -> (r: Vec<String>)
    ensures
        views_of(r@) == merged_paths(views_of(base@), views_of(extra@), extra@.len() as int),
{
    let ghost base0 = views_of(base@);
    let mut acc = base;
    let n = extra.len();
    let mut i: usize = 0;
    while i < n
        invariant
            i <= n,
            n == extra@.len(),
            views_of(acc@) == merged_paths(base0, views_of(extra@), i as int),
        decreases n - i,
    {
        let e = &extra[i];
        proof {
            assert(views_of(extra@)[i as int] == extra@[i as int]@);
        }
        if e.unicode_len() > 0 {
            if !contains_view(&acc, e.as_str()) {
                let ghost before = views_of(acc@);
                acc.push(e.clone());
                proof {
                    assert(views_of(acc@) =~= before.push(extra@[i as int]@));
                    assert(views_of(acc@) =~= merged_paths(base0, views_of(extra@), i + 1));
                }
            } else {
                proof {
                    assert(views_of(acc@) =~= merged_paths(base0, views_of(extra@), i + 1));
                }
            }
        } else {
            proof {
                assert(views_of(acc@) =~= merged_paths(base0, views_of(extra@), i + 1));
            }
        }
        i = i + 1;
    }
    acc
}

/// The file each search directory would hold for the program:
/// `dir/program`, directory order kept.
pub fn candidate_program_paths(dirs: &Vec<String>, program: &str) -> (r: Vec<String>)
    ensures
        r@.len() == dirs@.len(),
        forall|i: int| 0 <= i < r@.len() ==> (#[trigger] r@[i])@ == dirs@[i]@ + "/"@ + program@,
{
    let n = dirs.len();
    let mut out: Vec<String> = Vec::new();
    let mut i: usize = 0;
    while i < n
        invariant
            i <= n,
            n == dirs@.len(),
            out@.len() == i,
            forall|j: int| 0 <= j < i ==> (#[trigger] out@[j])@ == dirs@[j]@ + "/"@ + program@,
        decreases n - i,
    {
        let mut p = dirs[i].clone();
        p.append("/");
        p.append(program);
        out.push(p);
        i = i + 1;
    }
    out
}

} // verus!
