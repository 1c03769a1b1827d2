//! A small INI-style theme file parser: `[section]` headers, `key=value`
//! lines, `#` and `;` comments, blank lines skipped, whitespace trimmed.
//! Sections keep their first-appearance order; later values for one key
//! overwrite earlier ones; lines before any header land in the `default`
//! section.

use vstd::prelude::*;
use vstd::string::{StrSliceExecFns, StringExecFns};
use crate::assoc::{assoc_find, assoc_lookup, assoc_set, assoc_view, lemma_assoc_find_is, lemma_assoc_find_none};
use crate::strutil::{
    first_index_of, lemma_first_index_of, lemma_first_index_of_is, lemma_first_index_of_none,
    str_eq, str_first_index_of, str_trim_spaces, trim_spaces,
};

verus! {

/// One section's settings.
pub type SettingsV = Seq<(Seq<char>, Seq<char>)>;

/// All sections, in first-appearance order.
pub type SectionsV = Seq<(Seq<char>, SettingsV)>;

/// A line with a trailing carriage return loses it.
pub open spec fn strip_cr(s: Seq<char>) -> Seq<char> {
    if s.len() > 0 && s[s.len() - 1] == '\r' {
        s.drop_last()
    } else {
        s
    }
}

/// The lines of a text: split at `\n`, carriage returns stripped, no final
/// empty line for a trailing newline.
pub open spec fn split_lines(s: Seq<char>) -> Seq<Seq<char>>
    decreases s.len(),
{
    if s.len() == 0 {
        Seq::empty()
    } else {
        let i = first_index_of(s, '\n');
        if 0 <= i < s.len() {
            seq![strip_cr(s.take(i))] + split_lines(s.skip(i + 1))
        } else {
            seq![strip_cr(s)]
        }
    }
}

/// Ensure a section exists, keeping its position and contents if it does.
pub open spec fn ini_touch(sections: SectionsV, sec: Seq<char>) -> SectionsV {
    if assoc_find(sections, sec) == -1 {
        sections.push((sec, Seq::empty()))
    } else {
        sections
    }
}

/// Record one setting, creating its section at the end if needed.
pub open spec fn ini_put(
    sections: SectionsV,
    sec: Seq<char>,
    key: Seq<char>,
    val: Seq<char>,
) -> SectionsV {
    let i = assoc_find(sections, sec);
    if i == -1 {
        sections.push((sec, seq![(key, val)]))
    } else {
        sections.update(i, (sections[i].0, assoc_set(sections[i].1, key, val)))
    }
}

/// The parser's state: the sections so far and the section being filled.
pub ghost struct IniStateV {
    pub sections: SectionsV,
    pub cur: Seq<char>,
}

/// One line: blank and comment lines do nothing, a non-empty bracket header
/// switches (and registers) the section, and a `key=value` line with neither
/// side blank records the setting.
pub open spec fn ini_line_step(st: IniStateV, line: Seq<char>) -> IniStateV {
    let t = trim_spaces(line);
    if t.len() == 0 {
        st
    } else if t[0] == '#' || t[0] == ';' {
        st
    } else if t[0] == '[' && t[t.len() - 1] == ']' {
        let name = trim_spaces(t.subrange(1, t.len() - 1));
        if name.len() == 0 {
            st
        } else {
            IniStateV { sections: ini_touch(st.sections, name), cur: name }
        }
    } else {
        let e = first_index_of(t, '=');
        if e == -1 {
            st
        } else {
            let key = trim_spaces(t.take(e));
            let val = trim_spaces(t.skip(e + 1));
            if key.len() == 0 || val.len() == 0 {
                st
            } else {
                IniStateV { sections: ini_put(st.sections, st.cur, key, val), cur: st.cur }
            }
        }
    }
}

/// All lines, in order.
pub open spec fn ini_fold(st: IniStateV, lines: Seq<Seq<char>>) -> IniStateV
    decreases lines.len(),
{
    if lines.len() == 0 {
        st
    } else {
        ini_line_step(ini_fold(st, lines.drop_last()), lines.last())
    }
}

/// What parsing a whole theme text yields.
pub open spec fn parse_ini_spec(input: Seq<char>) -> SectionsV {
    ini_fold(IniStateV { sections: Seq::empty(), cur: "default"@ }, split_lines(input)).sections
}

/// The parsed themes: sections in first-appearance order, each an ordered
/// key-value list with overwrite semantics.
pub struct IniThemes {
    pub sections: Vec<(String, Vec<(String, String)>)>,
}

/// The view of the nested section list.
pub open spec fn sections_view(s: Seq<(String, Vec<(String, String)>)>) -> SectionsV {
    s.map_values(|p: (String, Vec<(String, String)>)| (p.0@, assoc_view(p.1@)))
}

impl View for IniThemes {
    type V = SectionsV;

    open spec fn view(&self) -> SectionsV {
        sections_view(self.sections@)
    }
}

/// Find a section by exact name.
fn find_section(sections: &Vec<(String, Vec<(String, String)>)>, name: &str) -> (r: Option<usize>)
    ensures
        match r {
            Some(i) => i == assoc_find(sections_view(sections@), name@) && i < sections@.len(),
            None => assoc_find(sections_view(sections@), name@) == -1,
        },
{
    let n = sections.len();
    let mut i: usize = 0;
    while i < n
        invariant
            n == sections@.len(),
            i <= n,
            forall|j: int| 0 <= j < i ==> (#[trigger] sections_view(sections@)[j]).0 != name@,
        decreases n - i,
    {
        if str_eq(sections[i].0.as_str(), name) {
            proof {
                assert(sections_view(sections@)[i as int].0 == name@);
                lemma_assoc_find_is(sections_view(sections@), name@, i as int);
            }
            return Some(i);
        }
        proof {
            assert(sections_view(sections@)[i as int].0 == sections@[i as int].0@);
        }
        i = i + 1;
    }
    proof {
        lemma_assoc_find_none(sections_view(sections@), name@);
    }
    None
}

/// Parse a whole theme text.
pub fn parse_color_ini_themes(input: &str) -> (r: IniThemes)
    ensures
        r@ == parse_ini_spec(input@),
{
    let ghost lines_spec = split_lines(input@);
    let lines = split_text_lines(input);
    let mut sections: Vec<(String, Vec<(String, String)>)> = Vec::new();
    let mut cur: String = "default".to_owned();
    let ghost init = IniStateV { sections: Seq::empty(), cur: "default"@ };
    proof {
        assert(sections_view(sections@) =~= Seq::<(Seq<char>, SettingsV)>::empty());
        assert(lines_spec.take(0) =~= Seq::<Seq<char>>::empty());
    }
    let n = lines.len();
    let mut i: usize = 0;
    while i < n
        invariant
            n == lines@.len(),
            i <= n,
            lines_spec == split_lines(input@),
            lines@.map_values(|x: &str| x@) == lines_spec,
            sections_view(sections@) == ini_fold(init, lines_spec.take(i as int)).sections,
            cur@ == ini_fold(init, lines_spec.take(i as int)).cur,
            init == (IniStateV { sections: Seq::<(Seq<char>, SettingsV)>::empty(), cur: "default"@ }),
        decreases n - i,
    {
        let ghost st_pre = ini_fold(init, lines_spec.take(i as int));
        proof {
            assert(lines_spec.take(i + 1).drop_last() =~= lines_spec.take(i as int));
            assert(lines_spec.take(i + 1).last() == lines@.map_values(|x: &str| x@)[i as int]);
        }
        let t = str_trim_spaces(lines[i]);
        let tn = t.unicode_len();
        if tn == 0 {
            // a blank line
        } else {
            let c0 = t.get_char(0);
            if c0 == '#' || c0 == ';' {
                // a comment
            } else if c0 == '[' && t.get_char(tn - 1) == ']' {
                let name = str_trim_spaces(t.substring_char(1, tn - 1));
                if name.unicode_len() > 0 {
                    match find_section(&sections, name) {
                        Some(_) => {},
                        None => {
                            let fresh: Vec<(String, String)> = Vec::new();
                            proof {
                                assert(assoc_view(fresh@) =~= Seq::<(Seq<char>, Seq<char>)>::empty());
                            }
                            sections.push((name.to_owned(), fresh));
                            proof {
                                assert(sections_view(sections@)[sections@.len() - 1] == (
                                    name@,
                                    Seq::<(Seq<char>, Seq<char>)>::empty(),
                                ));
                                assert(sections_view(sections@) =~= ini_touch(
                                    st_pre.sections,
                                    name@,
                                ));
                            }
                        },
                    }
                    cur = name.to_owned();
                }
            } else {
                match str_first_index_of(t, '=') {
                    None => {},
                    Some(e) => {
                        proof {
                            lemma_first_index_of(t@, '=');
                        }
                        let key = str_trim_spaces(t.substring_char(0, e));
                        let val = str_trim_spaces(t.substring_char(e + 1, tn));
                        proof {
                            assert(t@.subrange(0, e as int) =~= t@.take(e as int));
                            assert(t@.subrange(e + 1, tn as int) =~= t@.skip(e + 1));
                        }
                        if key.unicode_len() > 0 && val.unicode_len() > 0 {
                            match find_section(&sections, cur.as_str()) {
                                Some(ix) => {
                                    let (name, mut inner) = sections.remove(ix);
                                    crate::assoc::assoc_put(
                                        &mut inner,
                                        key.to_owned(),
                                        val.to_owned(),
                                    );
                                    sections.insert(ix, (name, inner));
                                    proof {
                                        assert(sections_view(sections@) =~= ini_put(
                                            st_pre.sections,
                                            cur@,
                                            key@,
                                            val@,
                                        ));
                                    }
                                },
                                None => {
                                    let mut inner: Vec<(String, String)> = Vec::new();
                                    inner.push((key.to_owned(), val.to_owned()));
                                    sections.push((cur.clone(), inner));
                                    proof {
                                        assert(assoc_view(sections@[sections@.len() - 1].1@) =~= seq![
                                            (key@, val@),
                                        ]);
                                        assert(sections_view(sections@) =~= ini_put(
                                            st_pre.sections,
                                            cur@,
                                            key@,
                                            val@,
                                        ));
                                    }
                                },
                            }
                        }
                    },
                }
            }
        }
        i = i + 1;
        proof {
            assert(sections_view(sections@) =~= ini_fold(init, lines_spec.take(i as int)).sections);
        }
    }
    proof {
        assert(lines_spec.take(n as int) =~= lines_spec);
    }
    IniThemes { sections }
}

/// Split a text into its lines, as borrowed slices.
fn split_text_lines<'a>(s: &'a str) -> (r: Vec<&'a str>)
    ensures
        r@.map_values(|x: &str| x@) == split_lines(s@),
{
    let n = s.unicode_len();
    let mut r: Vec<&'a str> = Vec::new();
    let mut pos: usize = 0;
    proof {
        assert(r@.map_values(|x: &str| x@) =~= Seq::<Seq<char>>::empty());
        assert(s@.skip(0) =~= s@);
    }
    while pos < n
        invariant
            n == s@.len(),
            pos <= n,
            split_lines(s@) == r@.map_values(|x: &str| x@) + split_lines(s@.skip(pos as int)),
        decreases n - pos,
    {
        let ghost rest = s@.skip(pos as int);
        let ghost done = r@.map_values(|x: &str| x@);
        // find the next newline
        let mut k: usize = pos;
        let mut found = false;
        while k < n && !found
            invariant
                n == s@.len(),
                pos <= k <= n,
                forall|j: int| pos <= j < k ==> s@[j] != '\n',
                found ==> k < n && s@[k as int] == '\n',
            decreases n - k + (if found { 0int } else { 1int }),
        {
            if s.get_char(k) == '\n' {
                found = true;
            } else {
                k = k + 1;
            }
        }
        if found {
            proof {
                assert(forall|j: int| 0 <= j < k - pos ==> rest[j] == s@[pos + j]);
                lemma_first_index_of_is(rest, '\n', k - pos);
            }
            let line = if k > pos && s.get_char(k - 1) == '\r' {
                s.substring_char(pos, k - 1)
            } else {
                s.substring_char(pos, k)
            };
            proof {
                assert(rest.take(k - pos) =~= s@.subrange(pos as int, k as int));
                if k > pos && s@[k - 1] == '\r' {
                    assert(rest.take(k - pos).drop_last() =~= s@.subrange(pos as int, k - 1));
                }
                assert(line@ == strip_cr(rest.take(k - pos)));
            }
            r.push(line);
            proof {
                assert(rest.skip(k - pos + 1) =~= s@.skip(k + 1));
                assert(r@.map_values(|x: &str| x@) =~= done.push(strip_cr(rest.take(k - pos))));
                assert(split_lines(rest) == seq![strip_cr(rest.take(k - pos))] + split_lines(
                    s@.skip(k + 1),
                ));
                assert(done.push(strip_cr(rest.take(k - pos))) + split_lines(s@.skip(k + 1)) =~= done
                    + split_lines(rest));
            }
            pos = k + 1;
        } else {
            proof {
                assert(forall|j: int| 0 <= j < rest.len() ==> rest[j] == s@[pos + j]);
                lemma_first_index_of_none(rest, '\n');
            }
            let line = if s.get_char(n - 1) == '\r' {
                s.substring_char(pos, n - 1)
            } else {
                s.substring_char(pos, n)
            };
            proof {
                assert(rest =~= s@.subrange(pos as int, n as int));
                if s@[n - 1] == '\r' {
                    assert(rest.drop_last() =~= s@.subrange(pos as int, n - 1));
                }
                assert(line@ == strip_cr(rest));
                assert(split_lines(rest) == seq![strip_cr(rest)]);
            }
            r.push(line);
            proof {
                assert(r@.map_values(|x: &str| x@) =~= done.push(strip_cr(rest)));
                assert(done.push(strip_cr(rest)) + split_lines(s@.skip(n as int)) =~= done
                    + split_lines(rest));
                assert(s@.skip(n as int) =~= Seq::<char>::empty());
            }
            pos = n;
        }
    }
    proof {
        assert(s@.skip(n as int) =~= Seq::<char>::empty());
        assert(r@.map_values(|x: &str| x@) + split_lines(s@.skip(n as int)) =~= r@.map_values(
            |x: &str| x@,
        ));
    }
    r
}

/// A field-wise copy of one section's settings.
fn clone_settings(v: &Vec<(String, String)>) -> (r: Vec<(String, String)>)
    ensures
        assoc_view(r@) == assoc_view(v@),
{
    let n = v.len();
    let mut r: Vec<(String, String)> = Vec::new();
    let mut i: usize = 0;
    proof {
        assert(assoc_view(r@) =~= assoc_view(v@).take(0));
    }
    while i < n
        invariant
            n == v@.len(),
            i <= n,
            r@.len() == i,
            assoc_view(r@) == assoc_view(v@).take(i as int),
        decreases n - i,
    {
        let k = v[i].0.clone();
        let w = v[i].1.clone();
        proof {
            assert(k@ == v@[i as int].0@ && w@ == v@[i as int].1@);
        }
        r.push((k, w));
        i = i + 1;
        proof {
            assert(r@.len() == i);
            assert(r@[i - 1].0@ == v@[i - 1].0@ && r@[i - 1].1@ == v@[i - 1].1@);
            assert(assoc_view(r@)[i - 1] == assoc_view(v@)[i - 1]);
            assert(assoc_view(r@) =~= assoc_view(v@).take(i as int));
        }
    }
    proof {
        assert(assoc_view(v@).take(n as int) =~= assoc_view(v@));
    }
    r
}

/// The single active theme of a text: its `default` section, else its first
/// section, else nothing.
pub open spec fn color_ini_default_of(sections: SectionsV) -> SettingsV {
    match assoc_lookup(sections, "default"@) {
        Some(m) => m,
        None => if sections.len() > 0 {
            sections[0].1
        } else {
            Seq::empty()
        },
    }
}

/// Executable [`color_ini_default_of`] over a freshly parsed text.
pub fn parse_color_ini(input: &str) -> (r: Vec<(String, String)>)
    ensures
        assoc_view(r@) == color_ini_default_of(parse_ini_spec(input@)),
{
    let themes = parse_color_ini_themes(input);
    match find_section(&themes.sections, "default") {
        Some(i) => clone_settings(&themes.sections[i].1),
        None => {
            if themes.sections.len() > 0 {
                clone_settings(&themes.sections[0].1)
            } else {
                proof {
                    assert(assoc_view(Seq::<(String, String)>::empty()) =~= Seq::<
                        (Seq<char>, Seq<char>),
                    >::empty());
                }
                Vec::new()
            }
        },
    }
}

} // verus!
