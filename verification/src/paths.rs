use vstd::prelude::*;

use crate::strutil::{push_char, str_eq};

verus! {

/// Is `c` a path separator? Windows-shaped paths also separate on `\`.
pub open spec fn is_sep(c: char, win: bool) -> bool {
    c == '/' || (win && c == '\\')
}

/// Index of the first separator at or after `i`, or `s.len()`.
pub open spec fn next_sep(s: Seq<char>, i: int, win: bool) -> int
    decreases s.len() - i when 0 <= i <= s.len()
{
    if i >= s.len() {
        s.len() as int
    } else if is_sep(s[i], win) {
        i
    } else {
        next_sep(s, i + 1, win)
    }
}

pub proof fn lemma_next_sep_bounds(s: Seq<char>, i: int, win: bool)
    requires
        0 <= i <= s.len(),
    ensures
        i <= next_sep(s, i, win) <= s.len(),
        next_sep(s, i, win) < s.len() ==> is_sep(s[next_sep(s, i, win)], win),
        forall|j: int| i <= j && j < next_sep(s, i, win) ==> !is_sep(s[j], win),
    decreases s.len() - i,
{
    if i < s.len() && !is_sep(s[i], win) {
        lemma_next_sep_bounds(s, i + 1, win);
    }
}

proof fn lemma_next_sep_skip(s: Seq<char>, i: int, j: int, win: bool)
    requires
        0 <= i <= j <= s.len(),
        forall|k: int| i <= k && k < j ==> !is_sep(s[k], win),
    ensures
        next_sep(s, i, win) == next_sep(s, j, win),
    decreases j - i,
{
    if i < j {
        lemma_next_sep_skip(s, i + 1, j, win);
    }
}

/// The normal components of a path string: the maximal nonempty runs of
/// non-separator characters, with `.` and `..` entries dropped.
pub open spec fn components(s: Seq<char>, win: bool) -> Seq<Seq<char>>
    decreases s.len()
    via components_decreases
{
    if s.len() == 0 {
        Seq::empty()
    } else if is_sep(s[0], win) {
        components(s.skip(1), win)
    } else {
        let e = next_sep(s, 0, win);
        let c = s.subrange(0, e);
        let rest = components(s.skip(e), win);
        if c == "."@ || c == ".."@ {
            rest
        } else {
            seq![c] + rest
        }
    }
}

#[via_fn]
proof fn components_decreases(s: Seq<char>, win: bool) {
    if s.len() > 0 && !is_sep(s[0], win) {
        lemma_next_sep_bounds(s, 0, win);
        assert(next_sep(s, 0, win) == next_sep(s, 1, win)) by {
            lemma_next_sep_skip(s, 0, 1, win);
        }
        lemma_next_sep_bounds(s, 1, win);
    }
}

fn is_sep_exec(c: char, win: bool) -> (r: bool)
    ensures
        r == is_sep(c, win),
{
    c == '/' || (win && c == '\\')
}

fn next_sep_exec(s: &str, win: bool) -> (r: usize)
    ensures
        r == next_sep(s@, 0, win),
        r <= s@.len(),
{
    let n = s.unicode_len();
    let mut i: usize = 0;
    while i < n
        invariant
            i <= n,
            n == s@.len(),
            forall|j: int| 0 <= j && j < i ==> !is_sep(#[trigger] s@[j], win),
        decreases n - i,
    {
        if is_sep_exec(s.get_char(i), win) {
            proof {
                lemma_next_sep_skip(s@, 0, i as int, win);
            }
            return i;
        }
        i = i + 1;
    }
    proof {
        lemma_next_sep_skip(s@, 0, n as int, win);
    }
    n
}

/// Append the normal components of `s` to `out`.
pub fn push_components(s: &str, win: bool, out: &mut Vec<String>)
    ensures
        final(out).deep_view() == old(out).deep_view() + components(s@, win),
    decreases s@.len(),
{
    let ghost out0 = old(out).deep_view();
    let n = s.unicode_len();
    if n == 0 {
        proof {
            assert(out.deep_view() =~= out0 + components(s@, win));
        }
        return ;
    }
    if is_sep_exec(s.get_char(0), win) {
        let rest = s.substring_char(1, n);
        push_components(rest, win, out);
        return ;
    }
    let e = next_sep_exec(s, win);
    proof {
        lemma_next_sep_bounds(s@, 0, win);
    }
    let c = s.substring_char(0, e);
    let rest = s.substring_char(e, n);
    if str_eq(c, ".") || str_eq(c, "..") {
        push_components(rest, win, out);
    } else {
        out.push(String::from_str(c));
        proof {
            assert(out.deep_view() =~= out0.push(c@));
        }
        push_components(rest, win, out);
        proof {
            assert(out.deep_view() =~= out0 + components(s@, win));
        }
    }
}

/// An ASCII letter, as a drive designator requires.
pub open spec fn is_ascii_alpha(c: char) -> bool {
    (65 <= c as u32 && c as u32 <= 90) || (97 <= c as u32 && c as u32 <= 122)
}

/// Does the path open with a drive designator such as `C:`?
pub open spec fn has_drive_prefix(s: Seq<char>) -> bool {
    s.len() >= 2 && s[1] == ':' && is_ascii_alpha(s[0])
}

fn is_ascii_alpha_exec(c: char) -> (r: bool)
    ensures
        r == is_ascii_alpha(c),
{
    let u = c as u32;
    (65 <= u && u <= 90) || (97 <= u && u <= 122)
}

/// The lowercase form of an ASCII letter; other characters are unchanged.
pub open spec fn lower_char(c: char) -> char {
    match c {
        'A' => 'a',
        'B' => 'b',
        'C' => 'c',
        'D' => 'd',
        'E' => 'e',
        'F' => 'f',
        'G' => 'g',
        'H' => 'h',
        'I' => 'i',
        'J' => 'j',
        'K' => 'k',
        'L' => 'l',
        'M' => 'm',
        'N' => 'n',
        'O' => 'o',
        'P' => 'p',
        'Q' => 'q',
        'R' => 'r',
        'S' => 's',
        'T' => 't',
        'U' => 'u',
        'V' => 'v',
        'W' => 'w',
        'X' => 'x',
        'Y' => 'y',
        'Z' => 'z',
        _ => c,
    }
}

fn lower_char_exec(c: char) -> (r: char)
    ensures
        r == lower_char(c),
{
    match c {
        'A' => 'a',
        'B' => 'b',
        'C' => 'c',
        'D' => 'd',
        'E' => 'e',
        'F' => 'f',
        'G' => 'g',
        'H' => 'h',
        'I' => 'i',
        'J' => 'j',
        'K' => 'k',
        'L' => 'l',
        'M' => 'm',
        'N' => 'n',
        'O' => 'o',
        'P' => 'p',
        'Q' => 'q',
        'R' => 'r',
        'S' => 's',
        'T' => 't',
        'U' => 'u',
        'V' => 'v',
        'W' => 'w',
        'X' => 'x',
        'Y' => 'y',
        'Z' => 'z',
        _ => c,
    }
}

/// The backup-tree component standing for a drive: `drive_` plus the
/// lowercased letter.
pub open spec fn drive_comp(c: char) -> Seq<char> {
    "drive_"@ + seq![lower_char(c)]
}

fn drive_comp_exec(c: char) -> (r: String)
    ensures
        r@ == drive_comp(c),
{
    let mut d = String::from_str("drive_");
    push_char(&mut d, lower_char_exec(c));
    d
}

/// Case-insensitive match for the literal component `Users`.
pub open spec fn is_users_name(c: Seq<char>) -> bool {
    c.len() == 5 && (c[0] == 'U' || c[0] == 'u') && (c[1] == 'S' || c[1] == 's') && (c[2] == 'E'
        || c[2] == 'e') && (c[3] == 'R' || c[3] == 'r') && (c[4] == 'S' || c[4] == 's')
}

fn is_users_name_exec(c: &str) -> (r: bool)
    ensures
        r == is_users_name(c@),
{
    let n = c.unicode_len();
    if n != 5 {
        return false;
    }
    let c0 = c.get_char(0);
    let c1 = c.get_char(1);
    let c2 = c.get_char(2);
    let c3 = c.get_char(3);
    let c4 = c.get_char(4);
    (c0 == 'U' || c0 == 'u') && (c1 == 'S' || c1 == 's') && (c2 == 'E' || c2 == 'e') && (c3 == 'R'
        || c3 == 'r') && (c4 == 'S' || c4 == 's')
}

/// Rewrite a drive-relative component list: each `Users` component that a
/// further component follows becomes `Users` then `user_home`, with the
/// follower (the account name) dropped.
pub open spec fn anonymize_users(cs: Seq<Seq<char>>) -> Seq<Seq<char>>
    decreases cs.len(),
{
    if cs.len() == 0 {
        Seq::empty()
    } else if is_users_name(cs[0]) && cs.len() >= 2 {
        seq!["Users"@, "user_home"@] + anonymize_users(cs.skip(2))
    } else {
        seq![cs[0]] + anonymize_users(cs.skip(1))
    }
}

fn anonymize_users_exec(cs: &Vec<String>, out: &mut Vec<String>)
    ensures
        final(out).deep_view() == old(out).deep_view() + anonymize_users(cs.deep_view()),
{
    let ghost out0 = old(out).deep_view();
    let ghost full = cs.deep_view();
    proof {
        assert(full.skip(0) =~= full);
    }
    let n = cs.len();
    let mut i: usize = 0;
    while i < n
        invariant
            i <= n,
            n == cs@.len(),
            full == cs.deep_view(),
            out0 + anonymize_users(full) == out.deep_view() + anonymize_users(full.skip(i as int)),
        decreases n - i,
    {
        proof {
            assert(full.skip(i as int)[0] == cs.deep_view()[i as int]);
        }
        if is_users_name_exec(cs[i].as_str()) && i + 1 < n {
            out.push(String::from_str("Users"));
            out.push(String::from_str("user_home"));
            proof {
                assert(full.skip(i as int).skip(2) =~= full.skip(i + 2));
                assert(out.deep_view() + anonymize_users(full.skip(i + 2)) =~= out0
                    + anonymize_users(full));
            }
            i = i + 2;
        } else {
            out.push(cs[i].clone());
            proof {
                assert(full.skip(i as int).skip(1) =~= full.skip(i + 1));
                assert(out.deep_view() + anonymize_users(full.skip(i + 1)) =~= out0
                    + anonymize_users(full));
            }
            i = i + 1;
        }
    }
    proof {
        assert(anonymize_users(full.skip(n as int)) =~= Seq::<Seq<char>>::empty());
        assert(out.deep_view() =~= out0 + anonymize_users(full));
    }
}

/// A POSIX-shaped absolute path: it opens with `/`.
pub open spec fn is_absolute(s: Seq<char>) -> bool {
    s.len() > 0 && s[0] == '/'
}

/// Does absolute path `p` lie under absolute home directory `h`,
/// component-wise?
pub open spec fn under_home(p: Seq<char>, h: Seq<char>) -> bool {
    is_absolute(p) && is_absolute(h) && components(h, false).len() <= components(p, false).len()
        && components(p, false).take(components(h, false).len() as int) == components(h, false)
}

/// The view of an optional string.
pub open spec fn opt_view(o: Option<String>) -> Option<Seq<char>> {
    match o {
        Some(s) => Some(s@),
        None => None,
    }
}

/// The anonymized relative form of host path `p`: the platform family is
/// chosen from the path's own shape, the account-bearing segment becomes
/// `user_home`, and a drive becomes `drive_<letter>`.
pub open spec fn spec_anonymize(p: Seq<char>, home: Option<Seq<char>>) -> Seq<Seq<char>> {
    if has_drive_prefix(p) {
        seq![drive_comp(p[0])] + anonymize_users(components(p.skip(2), true))
    } else {
        match home {
            Some(h) => if under_home(p, h) {
                seq!["user_home"@] + components(p, false).skip(components(h, false).len() as int)
            } else {
                components(p, false)
            },
            None => components(p, false),
        }
    }
}

/// Compute the anonymized component list for `path`.
pub fn anonymize(path: &str, home: &Option<String>) -> (r: Vec<String>)
    ensures
        r.deep_view() == spec_anonymize(path@, opt_view(*home)),
{
    let n = path.unicode_len();
    if n >= 2 && path.get_char(1) == ':' && is_ascii_alpha_exec(path.get_char(0)) {
        let mut out: Vec<String> = Vec::new();
        out.push(drive_comp_exec(path.get_char(0)));
        let rest = path.substring_char(2, n);
        let mut comps: Vec<String> = Vec::new();
        push_components(rest, true, &mut comps);
        proof {
            assert(comps.deep_view() =~= components(path@.skip(2), true));
        }
        anonymize_users_exec(&comps, &mut out);
        proof {
            assert(out.deep_view() =~= spec_anonymize(path@, opt_view(*home)));
        }
        return out;
    }
    let mut pc: Vec<String> = Vec::new();
    push_components(path, false, &mut pc);
    proof {
        assert(pc.deep_view() =~= components(path@, false));
    }
    match home {
        Some(h) => {
            let hn = h.as_str().unicode_len();
            let mut hc: Vec<String> = Vec::new();
            push_components(h.as_str(), false, &mut hc);
            proof {
                assert(hc.deep_view() =~= components(h@, false));
            }
            let p_abs = n > 0 && path.get_char(0) == '/';
            let h_abs = hn > 0 && h.as_str().get_char(0) == '/';
            let mut prefix = p_abs && h_abs && hc.len() <= pc.len();
            if prefix {
                let mut i: usize = 0;
                let mut same = true;
                while i < hc.len()
                    invariant
                        i <= hc@.len() <= pc@.len(),
                        same == (forall|j: int|
                            0 <= j && j < i ==> pc.deep_view()[j] == hc.deep_view()[j]),
                    decreases hc@.len() - i,
                {
                    let ghost same0 = same;
                    if !(pc[i] == hc[i]) {
                        same = false;
                    }
                    proof {
                        if same0 && pc.deep_view()[i as int] == hc.deep_view()[i as int] {
                            assert(forall|j: int|
                                0 <= j && j < i + 1 ==> pc.deep_view()[j] == hc.deep_view()[j]);
                        }
                    }
                    i = i + 1;
                }
                prefix = same;
                proof {
                    if same {
                        assert(pc.deep_view().take(hc.deep_view().len() as int)
                            =~= hc.deep_view());
                    } else {
                        assert(pc.deep_view().take(hc.deep_view().len() as int)
                            != hc.deep_view());
                    }
                }
            }
            if prefix {
                proof {
                    assert(under_home(path@, h@));
                }
                let mut out: Vec<String> = Vec::new();
                out.push(String::from_str("user_home"));
                let mut i: usize = hc.len();
                while i < pc.len()
                    invariant
                        hc@.len() <= i <= pc@.len(),
                        pc.deep_view() == components(path@, false),
                        hc.deep_view() == components(opt_view(*home)->Some_0, false),
                        out.deep_view() =~= seq!["user_home"@] + pc.deep_view().subrange(
                            hc@.len() as int,
                            i as int,
                        ),
                    decreases pc@.len() - i,
                {
                    let ghost prev = out.deep_view();
                    out.push(pc[i].clone());
                    proof {
                        assert(out.deep_view() =~= prev.push(pc.deep_view()[i as int]));
                        assert(pc.deep_view().subrange(hc@.len() as int, i as int + 1)
                            =~= pc.deep_view().subrange(hc@.len() as int, i as int).push(
                            pc.deep_view()[i as int],
                        ));
                        assert(out.deep_view() =~= seq!["user_home"@]
                            + pc.deep_view().subrange(hc@.len() as int, i as int + 1));
                    }
                    i = i + 1;
                }
                proof {
                    assert(pc.deep_view().subrange(hc@.len() as int, pc@.len() as int)
                        =~= pc.deep_view().skip(hc.deep_view().len() as int));
                    assert(out.deep_view() =~= spec_anonymize(path@, opt_view(*home)));
                }
                return out;
            }
            proof {
                if under_home(path@, h@) {
                    assert(components(path@, false).take(components(h@, false).len() as int)
                        == components(h@, false));
                    assert(false);
                }
            }
            pc
        },
        None => pc,
    }
}

/// `base`, then each of `cs` appended behind a `/`.
pub open spec fn join_under(base: Seq<char>, cs: Seq<Seq<char>>) -> Seq<char>
    decreases cs.len(),
{
    if cs.len() == 0 {
        base
    } else {
        join_under(base + seq!['/'] + cs[0], cs.skip(1))
    }
}

/// Join `base` and the components `cs` with `/` separators.
pub fn join_path(base: &str, cs: &Vec<String>) -> (r: String)
    ensures
        r@ == join_under(base@, cs.deep_view()),
{
    let mut cur = String::from_str(base);
    proof {
        assert(cs.deep_view().skip(0) =~= cs.deep_view());
    }
    let n = cs.len();
    let mut i: usize = 0;
    while i < n
        invariant
            i <= n,
            n == cs@.len(),
            join_under(base@, cs.deep_view()) == join_under(cur@, cs.deep_view().skip(i as int)),
        decreases n - i,
    {
        let ghost cur0 = cur@;
        push_char(&mut cur, '/');
        cur.append(cs[i].as_str());
        proof {
            assert(cur@ =~= cur0 + seq!['/'] + cs.deep_view()[i as int]);
            assert(cs.deep_view().skip(i as int).skip(1) =~= cs.deep_view().skip(i + 1));
            assert(cs.deep_view().skip(i as int)[0] == cs.deep_view()[i as int]);
            assert(join_under(cur0, cs.deep_view().skip(i as int)) == join_under(
                cur@,
                cs.deep_view().skip(i + 1),
            ));
        }
        i = i + 1;
    }
    proof {
        assert(join_under(cur@, cs.deep_view().skip(n as int)) == cur@);
    }
    cur
}

/// A path assembled from components, joined by `/`, with no root marker.
pub open spec fn join_rel(cs: Seq<Seq<char>>) -> Seq<char>
    decreases cs.len(),
{
    if cs.len() == 0 {
        Seq::empty()
    } else if cs.len() == 1 {
        cs[0]
    } else {
        cs[0] + seq!['/'] + join_rel(cs.skip(1))
    }
}

/// A component as the anonymizer emits one: nonempty, free of both
/// separators, and not a dot entry.
pub open spec fn plain_component(c: Seq<char>) -> bool {
    c.len() > 0 && (forall|i: int| 0 <= i && i < c.len() ==> !is_sep(#[trigger] c[i], true)) && c
        != "."@ && c != ".."@
}

proof fn lemma_components_join_rel(cs: Seq<Seq<char>>)
    requires
        forall|i: int| 0 <= i && i < cs.len() ==> plain_component(#[trigger] cs[i]),
    ensures
        components(join_rel(cs), false) == cs,
    decreases cs.len(),
{
    if cs.len() == 0 {
        assert(components(join_rel(cs), false) =~= cs);
    } else if cs.len() == 1 {
        let s = cs[0];
        assert(plain_component(s));
        assert(join_rel(cs) == s);
        assert(forall|k: int| 0 <= k && k < s.len() ==> !is_sep(#[trigger] s[k], false));
        assert(!is_sep(s[0], false));
        lemma_next_sep_skip(s, 0, s.len() as int, false);
        assert(next_sep(s, 0, false) == s.len());
        assert(s.subrange(0, s.len() as int) =~= s);
        assert(s.skip(s.len() as int) =~= Seq::<char>::empty());
        assert(components(s.skip(s.len() as int), false) =~= Seq::<Seq<char>>::empty());
        assert(components(s, false) == seq![s] + components(s.skip(s.len() as int), false));
        assert(components(join_rel(cs), false) =~= cs);
    } else {
        let s = join_rel(cs);
        let c0 = cs[0];
        let tail = join_rel(cs.skip(1));
        let m = c0.len() as int;
        assert(s == c0 + seq!['/'] + tail);
        assert(plain_component(c0));
        assert(forall|k: int| 0 <= k && k < m ==> s[k] == c0[k]);
        assert(forall|k: int| 0 <= k && k < m ==> !is_sep(#[trigger] s[k], false));
        assert(s[m] == '/');
        lemma_next_sep_skip(s, 0, m, false);
        assert(next_sep(s, 0, false) == m);
        assert(s.subrange(0, m) =~= c0);
        assert(s.skip(m) =~= seq!['/'] + tail);
        assert(s.skip(m).skip(1) =~= tail);
        lemma_components_join_rel(cs.skip(1));
        assert(components(s.skip(m), false) == components(tail, false));
        assert(components(s, false) =~= seq![c0] + cs.skip(1));
        assert(seq![c0] + cs.skip(1) =~= cs);
    }
}

/// Law: the anonymizing map is stable on its own output. A path already
/// shaped like the inside of the backup tree — a relative join of emitted
/// components, without a drive designator — anonymizes to exactly those
/// components again, whatever the home directory. Re-rooting a backup
/// under a new root therefore changes nothing, and two host paths map to
/// one backup location exactly when their anonymized forms agree.
pub proof fn lemma_anonymize_stable(cs: Seq<Seq<char>>, home: Option<Seq<char>>)
    requires
        forall|i: int| 0 <= i && i < cs.len() ==> plain_component(#[trigger] cs[i]),
        !has_drive_prefix(join_rel(cs)),
    ensures
        spec_anonymize(join_rel(cs), home) == cs,
{
    let s = join_rel(cs);
    lemma_components_join_rel(cs);
    if cs.len() > 0 {
        assert(s[0] == cs[0][0]);
        assert(!is_sep(cs[0][0], true));
        assert(!is_absolute(s));
    } else {
        assert(!is_absolute(s));
    }
    match home {
        Some(h) => {
            assert(!under_home(s, h));
        },
        None => {},
    }
}

} // verus!
