use vstd::prelude::*;

use crate::text::{chars_equal, chars_of, opt_view, slice_chars, string_of, trim, trim_chars};

verus! {

/// The `name` and `version` that an addon's descriptor declares.
#[derive(Debug, Default, PartialEq, Eq)]
pub struct PluginInfo {
    pub name: Option<String>,
    pub version: Option<String>,
}

/// What a descriptor scan has gathered so far.
pub struct CfgState {
    pub in_plugin: bool,
    pub name: Option<Seq<char>>,
    pub version: Option<Seq<char>>,
}

impl View for PluginInfo {
    type V = CfgState;

    open spec fn view(&self) -> CfgState {
        CfgState { in_plugin: false, name: opt_view(self.name), version: opt_view(self.version) }
    }
}

/// The lines of `s`, split at each `\n` (the last one may be empty).
pub open spec fn split_lines(s: Seq<char>) -> Seq<Seq<char>>
    decreases s.len(),
{
    if s.len() == 0 {
        seq![Seq::empty()]
    } else {
        let pre = split_lines(s.drop_last());
        if s.last() == '\n' {
            pre.push(Seq::empty())
        } else {
            pre.update(pre.len() - 1, pre.last().push(s.last()))
        }
    }
}

/// The index of the first `c` in `s`.
pub open spec fn first_index(s: Seq<char>, c: char) -> Option<int>
    decreases s.len(),
{
    if s.len() == 0 {
        None
    } else {
        match first_index(s.drop_last(), c) {
            Some(i) => Some(i),
            None => if s.last() == c {
                Some(s.len() - 1)
            } else {
                None
            },
        }
    }
}

/// `s` without leading `"`.
pub open spec fn strip_lead_quotes(s: Seq<char>) -> Seq<char>
    decreases s.len(),
{
    if s.len() > 0 && s[0] == '"' {
        strip_lead_quotes(s.drop_first())
    } else {
        s
    }
}

/// `s` without trailing `"`.
pub open spec fn strip_trail_quotes(s: Seq<char>) -> Seq<char>
    decreases s.len(),
{
    if s.len() > 0 && s.last() == '"' {
        strip_trail_quotes(s.drop_last())
    } else {
        s
    }
}

/// A `key = value` line split at its first `=`: the key trimmed, the value
/// trimmed and without surrounding quotes; none where the line has no `=`.
pub open spec fn ini_pair(line: Seq<char>) -> Option<(Seq<char>, Seq<char>)> {
    match first_index(line, '=') {
        Some(i) => Some(
            (trim(line.take(i)), strip_trail_quotes(strip_lead_quotes(trim(line.skip(i + 1))))),
        ),
        None => None,
    }
}

pub open spec fn is_section_header(t: Seq<char>) -> bool {
    t.len() > 0 && t[0] == '[' && t.last() == ']'
}

pub open spec fn plugin_header() -> Seq<char> {
    seq!['[', 'p', 'l', 'u', 'g', 'i', 'n', ']']
}

pub open spec fn name_key() -> Seq<char> {
    seq!['n', 'a', 'm', 'e']
}

pub open spec fn version_key() -> Seq<char> {
    seq!['v', 'e', 'r', 's', 'i', 'o', 'n']
}

/// The scan after one more line: a section header opens or closes the
/// `plugin` section; inside it, `name` and `version` keys are taken.
pub open spec fn cfg_step(st: CfgState, line: Seq<char>) -> CfgState {
    let t = trim(line);
    if is_section_header(t) {
        CfgState { in_plugin: t == plugin_header(), ..st }
    } else if st.in_plugin {
        match ini_pair(t) {
            Some((k, v)) => if k == name_key() {
                CfgState { name: Some(v), ..st }
            } else if k == version_key() {
                CfgState { version: Some(v), ..st }
            } else {
                st
            },
            None => st,
        }
    } else {
        st
    }
}

pub open spec fn cfg_start() -> CfgState {
    CfgState { in_plugin: false, name: None, version: None }
}

/// The scan after all of `lines`.
pub open spec fn cfg_fold(lines: Seq<Seq<char>>) -> CfgState
    decreases lines.len(),
{
    if lines.len() == 0 {
        cfg_start()
    } else {
        cfg_step(cfg_fold(lines.drop_last()), lines.last())
    }
}

/// What a descriptor with text `content` declares.
pub open spec fn plugin_info_of(content: Seq<char>) -> CfgState {
    let st = cfg_fold(split_lines(content));
    CfgState { in_plugin: false, ..st }
}

proof fn lemma_split_lines_len(s: Seq<char>)
    ensures
        split_lines(s).len() >= 1,
    decreases s.len(),
{
    if s.len() > 0 {
        lemma_split_lines_len(s.drop_last());
    }
}

/// `s` without any `"` at its start or end.
fn strip_quotes(s: &Vec<char>) -> (r: Vec<char>)
    ensures
        r@ == strip_trail_quotes(strip_lead_quotes(s@)),
{
    let mut lo: usize = 0;
    assert(s@.skip(0) =~= s@);
    while lo < s.len() && s[lo] == '"'
        invariant
            lo <= s@.len(),
            strip_lead_quotes(s@) == strip_lead_quotes(s@.skip(lo as int)),
        decreases s@.len() - lo,
    {
        assert(s@.skip(lo as int)[0] == s@[lo as int]);
        assert(s@.skip(lo as int).drop_first() =~= s@.skip(lo + 1));
        lo = lo + 1;
    }
    let mut hi: usize = s.len();
    assert(s@.subrange(lo as int, hi as int) =~= s@.skip(lo as int));
    while hi > lo && s[hi - 1] == '"'
        invariant
            lo <= hi <= s@.len(),
            strip_trail_quotes(strip_lead_quotes(s@)) == strip_trail_quotes(
                s@.subrange(lo as int, hi as int),
            ),
        decreases hi,
    {
        assert(s@.subrange(lo as int, hi as int).last() == s@[hi - 1]);
        assert(s@.subrange(lo as int, hi as int).drop_last() =~= s@.subrange(lo as int, hi - 1));
        hi = hi - 1;
    }
    slice_chars(s, lo, hi)
}

/// Splits a `key = value` line (see `ini_pair`).
fn ini_pair_chars(line: &Vec<char>) -> (r: Option<(Vec<char>, Vec<char>)>)
    ensures
        r matches Some(p) ==> ini_pair(line@) == Some((p.0@, p.1@)),
        r is None ==> ini_pair(line@) is None,
{
    let n = line.len();
    let mut i: usize = 0;
    while i < n
        invariant
            n == line@.len(),
            i <= n,
            first_index(line@.take(i as int), '=') is None,
        decreases n - i,
    {
        assert(line@.take(i + 1).drop_last() =~= line@.take(i as int));
        if line[i] == '=' {
            proof { lemma_first_index_prefix(line@, '=', i + 1); }
            let key = trim_chars(&slice_chars(line, 0, i));
            let value = trim_chars(&slice_chars(line, i + 1, n));
            assert(line@.subrange(0, i as int) =~= line@.take(i as int));
            assert(line@.subrange(i + 1, n as int) =~= line@.skip(i + 1));
            return Some((key, strip_quotes(&value)));
        }
        i = i + 1;
    }
    assert(line@.take(n as int) =~= line@);
    None
}

proof fn lemma_first_index_prefix(s: Seq<char>, c: char, m: int)
    requires
        0 < m <= s.len(),
        first_index(s.take(m), c) is Some,
    ensures
        first_index(s, c) == first_index(s.take(m), c),
    decreases s.len() - m,
{
    if m < s.len() {
        assert(s.take(m + 1).drop_last() =~= s.take(m));
        lemma_first_index_prefix(s, c, m + 1);
    } else {
        assert(s.take(m) =~= s);
    }
}

/// Splits one descriptor line into its key and its unquoted value; none
/// where the line has no `=`.
pub fn parse_ini_line(line: &str) -> (r: Option<(String, String)>)
    ensures
        r matches Some(p) ==> ini_pair(line@) == Some((p.0@, p.1@)),
        r is None ==> ini_pair(line@) is None,
{
    match ini_pair_chars(&chars_of(line)) {
        Some((k, v)) => Some((string_of(&k), string_of(&v))),
        None => None,
    }
}

/// The scan after one more line (see `cfg_step`).
fn cfg_step_exec(
    in_plugin: &mut bool,
    name: &mut Option<Vec<char>>,
    version: &mut Option<Vec<char>>,
    line: &Vec<char>,
)
    ensures
        ({
            let st = cfg_step(
                CfgState {
                    in_plugin: *old(in_plugin),
                    name: vopt(*old(name)),
                    version: vopt(*old(version)),
                },
                line@,
            );
            st.in_plugin == *final(in_plugin) && st.name == vopt(*final(name)) && st.version
                == vopt(*final(version))
        }),
{
    let t = trim_chars(line);
    let tl = t.len();
    if tl > 0 && t[0] == '[' && t[tl - 1] == ']' {
        *in_plugin = chars_equal(&t, &vec!['[', 'p', 'l', 'u', 'g', 'i', 'n', ']']);
    } else if *in_plugin {
        match ini_pair_chars(&t) {
            Some((k, v)) => {
                if chars_equal(&k, &vec!['n', 'a', 'm', 'e']) {
                    *name = Some(v);
                } else if chars_equal(&k, &vec!['v', 'e', 'r', 's', 'i', 'o', 'n']) {
                    *version = Some(v);
                }
            },
            None => {},
        }
    }
}

pub open spec fn vopt(o: Option<Vec<char>>) -> Option<Seq<char>> {
    match o {
        Some(v) => Some(v@),
        None => None,
    }
}

/// Reads the `name` and `version` keys of the `[plugin]` section of a
/// descriptor's text. Lines outside that section, and lines without `=`,
/// are ignored; a key that is absent stays `None`.
pub fn parse_plugin_cfg(content: &str) -> (r: PluginInfo)
    ensures
        r@ == plugin_info_of(content@),
{
    let s = chars_of(content);
    let ghost cs = s@;
    let mut in_plugin = false;
    let mut name: Option<Vec<char>> = None;
    let mut version: Option<Vec<char>> = None;
    let mut cur: Vec<char> = Vec::new();
    let n = s.len();
    let mut i: usize = 0;
    assert(cs.take(0) =~= Seq::<char>::empty());
    while i < n
        invariant
            n == cs.len(),
            s@ == cs,
            i <= n,
            split_lines(cs.take(i as int)).len() >= 1,
            cur@ == split_lines(cs.take(i as int)).last(),
            cfg_fold(split_lines(cs.take(i as int)).drop_last()) == (CfgState {
                in_plugin,
                name: vopt(name),
                version: vopt(version),
            }),
        decreases n - i,
    {
        let c = s[i];
        let ghost pre = split_lines(cs.take(i as int));
        assert(cs.take(i + 1).drop_last() =~= cs.take(i as int));
        assert(cs.take(i + 1).last() == c);
        if c == '\n' {
            cfg_step_exec(&mut in_plugin, &mut name, &mut version, &cur);
            assert(split_lines(cs.take(i + 1)) == pre.push(Seq::empty()));
            assert(pre.push(Seq::empty()).drop_last() =~= pre);
            assert(pre =~= pre.drop_last().push(pre.last()));
            cur = Vec::new();
        } else {
            let ghost old_cur = cur@;
            cur.push(c);
            let ghost post = pre.update(pre.len() - 1, pre.last().push(c));
            assert(split_lines(cs.take(i + 1)) == post);
            assert(post.drop_last() =~= pre.drop_last());
        }
        i = i + 1;
    }
    assert(cs.take(n as int) =~= cs);
    let ghost all = split_lines(cs);
    assert(all =~= all.drop_last().push(all.last()));
    cfg_step_exec(&mut in_plugin, &mut name, &mut version, &cur);
    let name_s = match name {
        Some(v) => Some(string_of(&v)),
        None => None,
    };
    let version_s = match version {
        Some(v) => Some(string_of(&v)),
        None => None,
    };
    PluginInfo { name: name_s, version: version_s }
}

} // verus!
