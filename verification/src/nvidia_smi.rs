//! Parsing of the GPU tool's per-process listing. Running the tool and
//! reading the floating-point utilisation figures stay with the caller;
//! only the integer process scan lives here.

use vstd::prelude::*;
use crate::strutil;

verus! {

/// The pieces of `s` between occurrences of `sep`, empty pieces kept, as
/// the standard splitter yields them.
pub open spec fn pieces_acc(s: Seq<char>, cur: Seq<char>, sep: char) -> Seq<Seq<char>>
    decreases s.len(),
{
    if s.len() == 0 {
        seq![cur]
    } else if s[0] == sep {
        seq![cur].add(pieces_acc(s.subrange(1, s.len() as int), Seq::empty(), sep))
    } else {
        pieces_acc(s.subrange(1, s.len() as int), cur.push(s[0]), sep)
    }
}

/// All pieces of `s` between occurrences of `sep`.
pub open spec fn pieces_of(s: Seq<char>, sep: char) -> Seq<Seq<char>> {
    pieces_acc(s, Seq::empty(), sep)
}

/// Split on a separator, keeping empty pieces.
pub fn split_pieces(s: &str, sep: char) -> (r: Vec<String>)
    ensures
        r@.map_values(|t: String| t@) == pieces_of(s@, sep),
{
    let n = s.unicode_len();
    let mut out: Vec<String> = Vec::new();
    let mut cur = String::new();
    let mut i: usize = 0;
    proof {
        assert(s@.subrange(0, n as int) =~= s@);
        assert(out@.map_values(|t: String| t@) =~= Seq::<Seq<char>>::empty());
        assert(cur@ =~= Seq::<char>::empty());
    }
    while i < n
        invariant
            n == s@.len(),
            i <= n,
            out@.map_values(|t: String| t@).add(
                pieces_acc(s@.subrange(i as int, n as int), cur@, sep),
            ) == pieces_of(s@, sep),
        decreases n - i,
    {
        let ghost pre = out@.map_values(|t: String| t@);
        let ghost curv = cur@;
        let ghost rem = s@.subrange(i as int, n as int);
        proof {
            assert(rem[0] == s@[i as int]);
            assert(rem.subrange(1, rem.len() as int) =~= s@.subrange(i + 1, n as int));
        }
        let c = s.get_char(i);
        if c == sep {
            out.push(cur);
            cur = String::new();
            proof {
                assert(cur@ =~= Seq::<char>::empty());
                assert(out@.map_values(|t: String| t@) =~= pre.push(curv));
                let rest2 = pieces_acc(s@.subrange(i + 1, n as int), Seq::<char>::empty(), sep);
                assert(pre.push(curv).add(rest2) =~= pre.add(seq![curv].add(rest2)));
            }
        } else {
            strutil::push_char(&mut cur, c);
        }
        i += 1;
    }
    proof {
        assert(s@.subrange(i as int, n as int).len() == 0);
        let pre = out@.map_values(|t: String| t@);
        assert(pieces_acc(Seq::<char>::empty(), cur@, sep) =~= seq![cur@]);
    }
    let ghost pre = out@.map_values(|t: String| t@);
    let ghost curv = cur@;
    out.push(cur);
    proof {
        assert(out@.map_values(|t: String| t@) =~= pre.push(curv));
        assert(pre.push(curv) =~= pre.add(seq![curv]));
    }
    out
}

/// Whether one listing line names the process: at least two comma pieces,
/// the first parsing (after trimming) to exactly that pid.
pub open spec fn line_names_pid(line: Seq<char>, pid: u32) -> bool {
    let parts = pieces_of(line, ',');
    parts.len() >= 2 && strutil::parse_u32_spec(strutil::trim_spec(parts[0])) == Some(pid)
}

/// Whether some listing line names the process.
pub open spec fn listing_names_pid(lines: Seq<Seq<char>>, pid: u32) -> bool {
    exists|k: int| 0 <= k < lines.len() && line_names_pid(#[trigger] lines[k], pid)
}

/// Scan the per-process listing for the given pid; found means the pid
/// itself is returned.
pub fn parse_process_list(stdout: &str, pid: u32) -> (r: Option<u32>)
    ensures
        match r {
            Some(p) => p == pid && listing_names_pid(crate::rpc::lines_of(stdout@), pid),
            None => !listing_names_pid(crate::rpc::lines_of(stdout@), pid),
        },
{
    let lines = crate::rpc::text_lines(stdout);
    let ghost lv = lines@.map_values(|t: String| t@);
    let mut i: usize = 0;
    while i < lines.len()
        invariant
            i <= lines@.len(),
            lv == lines@.map_values(|t: String| t@),
            forall|k: int| 0 <= k < i ==> !line_names_pid(#[trigger] lv[k], pid),
        decreases lines@.len() - i,
    {
        let parts = split_pieces(lines[i].as_str(), ',');
        if parts.len() >= 2 {
            let head = strutil::trim(parts[0].as_str());
            match strutil::parse_u32(head.as_str()) {
                Some(p) => {
                    if p == pid {
                        proof {
                            assert(parts@.map_values(|t: String| t@)[0] == parts@[0]@);
                            assert(line_names_pid(lv[i as int], pid));
                        }
                        return Some(p);
                    }
                },
                None => {},
            }
        }
        proof {
            assert(parts@.map_values(|t: String| t@).len() == parts@.len());
            if parts@.len() >= 2 {
                assert(parts@.map_values(|t: String| t@)[0] == parts@[0]@);
            }
            assert(!line_names_pid(lv[i as int], pid));
        }
        i += 1;
    }
    None
}

/// Test seam mirroring the public probe of the process listing.
pub fn test_parse_process_list(stdout: &str, pid: u32) -> (r: Option<u32>)
    ensures
        match r {
            Some(p) => p == pid && listing_names_pid(crate::rpc::lines_of(stdout@), pid),
            None => !listing_names_pid(crate::rpc::lines_of(stdout@), pid),
        },
{
    parse_process_list(stdout, pid)
}

} // verus!
