//! Unix path arithmetic as `std::path` performs it on the strings the
//! library handles: joining a name to a directory and taking a path's last
//! component.

use vstd::prelude::*;
use vstd::slice::slice_subrange;
use crate::text::{chars_of, find_char, find_char_from, lemma_find_char_bounds, string_from_chars};

verus! {

/// `Path::new(base).join(name)` on Unix: an absolute `name` replaces the
/// base; otherwise one `/` separates them unless the base is empty or
/// already ends with `/`.
pub open spec fn join_path(base: Seq<char>, name: Seq<char>) -> Seq<char> {
    if name.len() > 0 && name[0] == '/' {
        name
    } else if base.len() == 0 || base.last() == '/' {
        base + name
    } else {
        base + seq!['/'] + name
    }
}

/// The named components of a path, in order: `/`-separated pieces with the
/// empty ones and the `.` ones left out (`Path::components` without its root
/// and current-directory markers).
pub open spec fn components(p: Seq<char>) -> Seq<Seq<char>>
    decreases p.len(),
{
    if p.len() == 0 {
        seq![]
    } else {
        let i = find_char(p, '/');
        let head = p.take(i);
        let tail = if i < p.len() {
            proof {
                lemma_find_char_bounds(p, '/');
            }
            components(p.skip(i + 1))
        } else {
            seq![]
        };
        if head.len() == 0 || head == seq!['.'] {
            tail
        } else {
            seq![head] + tail
        }
    }
}

/// `Path::file_name`: the last component unless the path has none or ends
/// in `..`.
pub open spec fn file_name(p: Seq<char>) -> Option<Seq<char>> {
    let c = components(p);
    if c.len() == 0 || c.last() == seq!['.', '.'] {
        None
    } else {
        Some(c.last())
    }
}

/// Joins `name` to the directory `base`.
pub fn join(base: &str, name: &str) -> (r: String)
    ensures
        r@ == join_path(base@, name@),
{
    let b = chars_of(base);
    let n = chars_of(name);
    let mut out: Vec<char> = Vec::new();
    if n.len() > 0 && n[0] == '/' {
        return string_from_chars(n.as_slice());
    }
    let mut i: usize = 0;
    while i < b.len()
        invariant
            i <= b.len(),
            out@ == b@.take(i as int),
        decreases b.len() - i,
    {
        out.push(b[i]);
        i = i + 1;
        assert(out@ =~= b@.take(i as int));
    }
    assert(b@.take(b.len() as int) =~= b@);
    if b.len() > 0 && b[b.len() - 1] != '/' {
        out.push('/');
    }
    let ghost mid = out@;
    let mut j: usize = 0;
    while j < n.len()
        invariant
            j <= n.len(),
            out@ == mid + n@.take(j as int),
        decreases n.len() - j,
    {
        out.push(n[j]);
        j = j + 1;
        assert(out@ =~= mid + n@.take(j as int));
    }
    assert(n@.take(n.len() as int) =~= n@);
    string_from_chars(out.as_slice())
}

/// An optional string by its characters.
pub open spec fn opt_chars(o: Option<&str>) -> Option<Seq<char>> {
    match o {
        Some(s) => Some(s@),
        None => None,
    }
}

/// The user's configuration directory: `$XDG_CONFIG_HOME` when it is set,
/// else `$HOME/.config` when `HOME` is set, else the relative `.config`.
pub open spec fn config_base(xdg: Option<Seq<char>>, home: Option<Seq<char>>) -> Seq<char> {
    match xdg {
        Some(x) => x,
        None => match home {
            Some(h) => join_path(h, ".config"@),
            None => ".config"@,
        },
    }
}

/// The user's configuration directory, from the values of
/// `XDG_CONFIG_HOME` and `HOME` (each absent when unset).
pub fn config_dir(xdg: Option<&str>, home: Option<&str>) -> (r: String)
    ensures
        r@ == config_base(opt_chars(xdg), opt_chars(home)),
{
    match xdg {
        Some(x) => String::from_str(x),
        None => match home {
            Some(h) => join(h, ".config"),
            None => String::from_str(".config"),
        },
    }
}

/// The last component of `path`, if `Path::file_name` finds one.
pub fn last_component(path: &str) -> (r: Option<String>)
    ensures
        match r {
            Some(s) => file_name(path@) == Some(s@),
            None => file_name(path@) is None,
        },
{
    let p = chars_of(path);
    let p = p.as_slice();
    let n = p.len();
    let mut pos: usize = 0;
    let mut last_start: usize = 0;
    let mut last_end: usize = 0;
    let mut found = false;
    let ghost mut acc: Seq<Seq<char>> = seq![];
    assert(p@.skip(0) =~= p@);
    while pos < n
        invariant
            pos <= n,
            n == p@.len(),
            components(p@) == acc + components(p@.skip(pos as int)),
            found == (acc.len() > 0),
            found ==> last_start <= last_end <= n && acc.last() == p@.subrange(
                last_start as int,
                last_end as int,
            ),
        decreases n - pos,
    {
        let end = find_char_from(p, '/', pos);
        let ghost rest = p@.skip(pos as int);
        let ghost head = rest.take(end - pos);
        proof {
            assert(head =~= p@.subrange(pos as int, end as int));
        }
        let len = end - pos;
        let is_dot = len == 1 && p[pos] == '.';
        proof {
            if len == 1 {
                if p@[pos as int] == '.' {
                    assert(head =~= seq!['.']);
                }
            }
        }
        let next = if end < n {
            end + 1
        } else {
            n
        };
        proof {
            if end < n {
                assert(rest.skip(end - pos + 1) =~= p@.skip(next as int));
            } else {
                assert(p@.skip(next as int) =~= Seq::<char>::empty());
            }
            assert(components(p@.skip(next as int)) == if end < n {
                components(rest.skip(end - pos + 1))
            } else {
                seq![]
            });
        }
        if len > 0 && !is_dot {
            proof {
                assert(acc + components(rest) =~= acc.push(head) + components(p@.skip(next as int)));
                acc = acc.push(head);
            }
            last_start = pos;
            last_end = end;
            found = true;
        }
        pos = next;
    }
    proof {
        assert(p@.skip(pos as int) =~= Seq::<char>::empty());
        assert(acc + components(p@.skip(pos as int)) =~= acc);
    }
    if !found {
        return None;
    }
    let last = slice_subrange(p, last_start, last_end);
    if last.len() == 2 && last[0] == '.' && last[1] == '.' {
        assert(last@ =~= seq!['.', '.']);
        None
    } else {
        assert(last@ != seq!['.', '.']);
        Some(string_from_chars(last))
    }
}

} // verus!
