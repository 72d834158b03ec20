//! Starting the tray with the session: where the autostart entry lives,
//! what enabling or disabling it writes, and whether an entry keeps the
//! tray from starting.

use vstd::prelude::*;
use crate::paths::{config_base, config_dir, join, join_path, opt_chars};
use crate::text::{
    ascii_lower, chars_eq_str, chars_of, find_char, is_whitespace, lemma_find_char_at, lines,
    split_lines,
    strip_cr, trim, trim_chars, trim_end, trim_start,
};

verus! {

/// The file name of the autostart entry.
pub const AUTOSTART_NAME: &'static str = "io.github.amdgpucontrol.Control.desktop";

/// `<config>/autostart/<AUTOSTART_NAME>`.
pub open spec fn autostart_path_spec(xdg: Option<Seq<char>>, home: Option<Seq<char>>) -> Seq<char> {
    join_path(join_path(config_base(xdg, home), "autostart"@), AUTOSTART_NAME@)
}

/// Where the user's autostart entry lives, from the values of
/// `XDG_CONFIG_HOME` and `HOME` (each absent when unset).
pub fn user_autostart_path(xdg: Option<&str>, home: Option<&str>) -> (r: String)
    ensures
        r@ == autostart_path_spec(opt_chars(xdg), opt_chars(home)),
{
    let base = config_dir(xdg, home);
    let dir = join(base.as_str(), "autostart");
    join(dir.as_str(), AUTOSTART_NAME)
}

/// The characters of `s` other than the space `' '`.
pub open spec fn without_spaces(s: Seq<char>) -> Seq<char>
    decreases s.len(),
{
    if s.len() == 0 {
        seq![]
    } else if s[0] == ' ' {
        without_spaces(s.drop_first())
    } else {
        seq![s[0]] + without_spaces(s.drop_first())
    }
}

/// A line of the entry as it is compared: trimmed, spaces removed, ASCII
/// letters in lower case.
pub open spec fn compact_line(line: Seq<char>) -> Seq<char> {
    without_spaces(trim(line)).map_values(|c: char| ascii_lower(c))
}

/// Some line of `contents` reads `Hidden=true`, in any case and with any
/// spaces.
pub open spec fn hides_entry(contents: Seq<char>) -> bool {
    exists|i: int| 0 <= i < lines(contents).len() && compact_line(#[trigger] lines(contents)[i]) == "hidden=true"@
}

/// Autostart is on unless the entry exists and hides itself.
pub open spec fn is_enabled_spec(contents: Option<Seq<char>>) -> bool {
    match contents {
        Some(c) => !hides_entry(c),
        None => true,
    }
}

/// The lines of the entry that starts the tray in the background.
pub open spec fn enabled_entry_lines() -> Seq<Seq<char>> {
    seq![
        "[Desktop Entry]"@,
        "Type=Application"@,
        "Name=AMDGPU Control Tray"@,
        "Exec=amdgpu-control --background"@,
        "Icon=io.github.amdgpucontrol.Control"@,
        "NoDisplay=true"@,
        "OnlyShowIn=GNOME;"@,
        "Hidden=false"@,
    ]
}

/// The lines of the entry that turns autostart off.
pub open spec fn disabled_entry_lines() -> Seq<Seq<char>> {
    seq!["[Desktop Entry]"@, "Type=Application"@, "Hidden=true"@]
}

/// Each line followed by `\n`.
pub open spec fn join_lines(ls: Seq<Seq<char>>) -> Seq<char>
    decreases ls.len(),
{
    if ls.len() == 0 {
        seq![]
    } else {
        ls[0] + seq!['\n'] + join_lines(ls.drop_first())
    }
}

/// What `set_enabled` writes to the entry.
pub open spec fn entry_contents(enabled: bool) -> Seq<char> {
    join_lines(
        if enabled {
            enabled_entry_lines()
        } else {
            disabled_entry_lines()
        },
    )
}

fn ascii_lower_exec(c: char) -> (r: char)
    ensures
        r == ascii_lower(c),
{
    if 'A' <= c && c <= 'Z' {
        ((c as u8) + 32) as char
    } else {
        c
    }
}

proof fn lemma_without_spaces_append(a: Seq<char>, b: Seq<char>)
    ensures
        without_spaces(a + b) == without_spaces(a) + without_spaces(b),
    decreases a.len(),
{
    if a.len() == 0 {
        assert(a + b =~= b);
        assert(without_spaces(a) + without_spaces(b) =~= without_spaces(b));
    } else {
        assert((a + b).drop_first() =~= a.drop_first() + b);
        lemma_without_spaces_append(a.drop_first(), b);
        if a[0] == ' ' {
        } else {
            assert(seq![a[0]] + (without_spaces(a.drop_first()) + without_spaces(b)) =~= (seq![a[0]]
                + without_spaces(a.drop_first())) + without_spaces(b));
        }
    }
}

fn compact_line_exec(line: &[char]) -> (r: Vec<char>)
    ensures
        r@ == compact_line(line@),
{
    let t = trim_chars(line);
    let mut out: Vec<char> = Vec::new();
    let mut i: usize = 0;
    while i < t.len()
        invariant
            i <= t.len(),
            out@ == without_spaces(t@.take(i as int)).map_values(|c: char| ascii_lower(c)),
        decreases t.len() - i,
    {
        let ghost before = without_spaces(t@.take(i as int));
        proof {
            assert(t@.take(i as int + 1) =~= t@.take(i as int) + seq![t@[i as int]]);
            lemma_without_spaces_append(t@.take(i as int), seq![t@[i as int]]);
            assert(seq![t@[i as int]].drop_first() =~= Seq::<char>::empty());
            let e = seq![t@[i as int]].drop_first();
            assert(e =~= Seq::<char>::empty());
            assert(without_spaces(e) =~= Seq::<char>::empty());
            let w = without_spaces(seq![t@[i as int]]);
            if t@[i as int] == ' ' {
                assert(w =~= Seq::<char>::empty());
                assert(before + w =~= before);
            } else {
                assert(w =~= seq![t@[i as int]]);
            }
        }
        if t[i] != ' ' {
            out.push(ascii_lower_exec(t[i]));
        }
        i = i + 1;
        assert(out@ =~= without_spaces(t@.take(i as int)).map_values(|c: char| ascii_lower(c)));
    }
    assert(t@.take(t.len() as int) =~= t@);
    out
}

/// Whether autostart is on for an entry whose contents are `contents`
/// (`None` when there is no entry to read).
pub fn is_enabled(contents: Option<&str>) -> (r: bool)
    ensures
        r == is_enabled_spec(opt_chars(contents)),
{
    match contents {
        None => true,
        Some(text) => {
            let chars = chars_of(text);
            let ls = split_lines(chars.as_slice());
            let ghost lv = lines(text@);
            let mut i: usize = 0;
            while i < ls.len()
                invariant
                    i <= ls.len(),
                    lv == lines(text@),
                    contents == Some(text),
                    ls@.map_values(|w: Vec<char>| w@) == lv,
                    forall|k: int| 0 <= k < i ==> compact_line(#[trigger] lv[k]) != "hidden=true"@,
                decreases ls.len() - i,
            {
                assert(ls@[i as int]@ == lv[i as int]);
                let c = compact_line_exec(ls[i].as_slice());
                if chars_eq_str(c.as_slice(), "hidden=true") {
                    return false;
                }
                i = i + 1;
            }
            true
        },
    }
}

fn push_line(out: &mut String, line: &str)
    ensures
        final(out)@ == old(out)@ + line@ + seq!['\n'],
{
    out.append(line);
    proof {
        reveal_strlit("\n");
    }
    out.append("\n");
}

/// What to write to the autostart entry to turn autostart on or off.
pub fn set_enabled(enabled: bool) -> (r: String)
    ensures
        r@ == entry_contents(enabled),
{
    let mut out = String::new();
    push_line(&mut out, "[Desktop Entry]");
    push_line(&mut out, "Type=Application");
    if enabled {
        push_line(&mut out, "Name=AMDGPU Control Tray");
        push_line(&mut out, "Exec=amdgpu-control --background");
        push_line(&mut out, "Icon=io.github.amdgpucontrol.Control");
        push_line(&mut out, "NoDisplay=true");
        push_line(&mut out, "OnlyShowIn=GNOME;");
        push_line(&mut out, "Hidden=false");
        proof {
            let ls = enabled_entry_lines();
            reveal_with_fuel(join_lines, 9);
            assert(out@ =~= join_lines(ls));
        }
    } else {
        push_line(&mut out, "Hidden=true");
        proof {
            let ls = disabled_entry_lines();
            reveal_with_fuel(join_lines, 4);
            assert(out@ =~= join_lines(ls));
        }
    }
    out
}

/// A line that `lines` gives back unchanged when it is followed by `\n`.
pub open spec fn plain_line(l: Seq<char>) -> bool {
    &&& forall|k: int| 0 <= k < l.len() ==> #[trigger] l[k] != '\n'
    &&& (l.len() > 0 ==> l.last() != '\r')
}

proof fn lemma_lines_of_joined(ls: Seq<Seq<char>>)
    requires
        forall|i: int| 0 <= i < ls.len() ==> plain_line(#[trigger] ls[i]),
    ensures
        lines(join_lines(ls)) == ls,
    decreases ls.len(),
{
    if ls.len() == 0 {
        assert(lines(join_lines(ls)) =~= ls);
    } else {
        let l = ls[0];
        let rest = join_lines(ls.drop_first());
        let s = join_lines(ls);
        assert(s =~= l + seq!['\n'] + rest);
        assert forall|j: int| 0 <= j < l.len() implies #[trigger] s[j] != '\n' by {}
        lemma_find_char_at(s, '\n', l.len() as int);
        assert(s.take(l.len() as int) =~= l);
        assert(s.skip(l.len() as int + 1) =~= rest);
        assert forall|i: int| 0 <= i < ls.drop_first().len() implies plain_line(
            #[trigger] ls.drop_first()[i],
        ) by {}
        lemma_lines_of_joined(ls.drop_first());
        assert(ls =~= seq![l] + ls.drop_first());
    }
}

proof fn lemma_without_spaces_plain(s: Seq<char>)
    requires
        forall|k: int| 0 <= k < s.len() ==> #[trigger] s[k] != ' ',
    ensures
        without_spaces(s) == s,
    decreases s.len(),
{
    if s.len() > 0 {
        assert forall|k: int| 0 <= k < s.drop_first().len() implies #[trigger] s.drop_first()[k]
            != ' ' by {}
        lemma_without_spaces_plain(s.drop_first());
        assert(seq![s[0]] + s.drop_first() =~= s);
    }
}

proof fn lemma_compact_head(line: Seq<char>)
    requires
        line.len() > 0,
        !is_whitespace(line[0]),
        !is_whitespace(line.last()),
    ensures
        compact_line(line).len() > 0,
        compact_line(line)[0] == ascii_lower(line[0]),
        (forall|k: int| 0 <= k < line.len() ==> #[trigger] line[k] != ' ') ==> compact_line(line)
            == line.map_values(|c: char| ascii_lower(c)),
{
    if forall|k: int| 0 <= k < line.len() ==> #[trigger] line[k] != ' ' {
        lemma_without_spaces_plain(line);
    }
}

/// Turning autostart on or off and then reading the entry back gives the
/// setting that was written.
pub proof fn lemma_autostart_roundtrip(enabled: bool)
    ensures
        is_enabled_spec(Some(entry_contents(enabled))) == enabled,
{
    reveal_strlit("[Desktop Entry]");
    reveal_strlit("Type=Application");
    reveal_strlit("hidden=true");
    let target = "hidden=true"@;
    let l0 = "[Desktop Entry]"@;
    let l1 = "Type=Application"@;
    lemma_compact_head(l0);
    lemma_compact_head(l1);
    if enabled {
        reveal_strlit("Name=AMDGPU Control Tray");
        reveal_strlit("Exec=amdgpu-control --background");
        reveal_strlit("Icon=io.github.amdgpucontrol.Control");
        reveal_strlit("NoDisplay=true");
        reveal_strlit("OnlyShowIn=GNOME;");
        reveal_strlit("Hidden=false");
        let ls = enabled_entry_lines();
        lemma_lines_of_joined(ls);
        lemma_compact_head(ls[2]);
        lemma_compact_head(ls[3]);
        lemma_compact_head(ls[4]);
        lemma_compact_head(ls[5]);
        lemma_compact_head(ls[6]);
        lemma_compact_head(ls[7]);
        assert forall|i: int| 0 <= i < ls.len() implies compact_line(#[trigger] ls[i]) != target by {}
    } else {
        reveal_strlit("Hidden=true");
        let ls = disabled_entry_lines();
        lemma_lines_of_joined(ls);
        lemma_compact_head(ls[2]);
        assert(compact_line(ls[2]) =~= target);
    }
}

} // verus!
