//! Console-script entry points: parsing `module:function` values and
//! collecting the scripts that installed distributions declare, with the
//! versioned `pip`/`easy_install` entries filtered out.
//!
//! Reading `entry_points.txt` files from disk is the caller's business; the
//! parsed INI sections come in as plain values.

use vstd::prelude::*;
use vstd::string::StrSliceExecFns;
use crate::strutil::{find_char, first_at, has_char, lemma_first_at_unique};

verus! {

/// What `str::trim` returns: the characters with leading and trailing
/// whitespace removed, a function of the characters alone.
pub uninterp spec fn trim_of(s: Seq<char>) -> Seq<char>;

/// Relies on `str::trim`: removes leading and trailing whitespace.
#[verifier::external_body]
fn trim_str(s: &str) -> (r: String)
    ensures
        r@ == trim_of(s@),
{
    s.trim().to_string()
}

/// An ASCII decimal digit.
pub open spec fn spec_is_digit(c: char) -> bool {
    48 <= (c as u32) && (c as u32) <= 57
}

fn is_digit(c: char) -> (r: bool)
    ensures
        r == spec_is_digit(c),
{
    let v = c as u32;
    48 <= v && v <= 57
}

/// Every position in `[from, to)` holds a digit, and there is at least one.
pub open spec fn digits_at(s: Seq<char>, from: int, to: int) -> bool {
    &&& from < to <= s.len()
    &&& forall|j: int| from <= j < to ==> spec_is_digit(#[trigger] s[j])
}

/// From `from` to the end, `s` reads as digits, optionally followed by a
/// dot and more digits: the tail of a versioned script name.
pub open spec fn spec_versioned_from(s: Seq<char>, from: int) -> bool {
    ||| digits_at(s, from, s.len() as int)
    ||| exists|d: int|
        from < d < s.len() && digits_at(s, from, d) && s[d] == '.' && digits_at(
            s,
            d + 1,
            s.len() as int,
        )
}

/// A versioned `pip` script name, such as `pip3` or `pip3.7`.
pub open spec fn spec_is_pip_script(s: Seq<char>) -> bool {
    s.len() > 3 && s.subrange(0, 3) == "pip"@ && spec_versioned_from(s, 3)
}

/// A versioned `easy_install` script name, such as `easy_install-3.7`.
pub open spec fn spec_is_easy_install_script(s: Seq<char>) -> bool {
    s.len() > 13 && s.subrange(0, 13) == "easy_install-"@ && spec_versioned_from(s, 13)
}

/// First position at or after `from` that holds no digit (or the length).
fn scan_digits(s: &str, from: usize) -> (r: usize)
    requires
        from <= s@.len(),
    ensures
        from <= r <= s@.len(),
        forall|j: int| from <= j < r ==> spec_is_digit(#[trigger] s@[j]),
        r < s@.len() ==> !spec_is_digit(s@[r as int]),
{
    let len = s.unicode_len();
    let mut i: usize = from;
    while i < len
        invariant
            from <= i <= len,
            len == s@.len(),
            forall|j: int| from <= j < i ==> spec_is_digit(#[trigger] s@[j]),
        decreases len - i,
    {
        if !is_digit(s.get_char(i)) {
            return i;
        }
        i = i + 1;
    }
    len
}

/// Decide `spec_versioned_from` at runtime.
fn is_versioned_from(s: &str, from: usize) -> (r: bool)
    requires
        from <= s@.len(),
    ensures
        r == spec_versioned_from(s@, from as int),
{
    let len = s.unicode_len();
    let d = scan_digits(s, from);
    if d == from {
        proof {
            if spec_versioned_from(s@, from as int) {
                if digits_at(s@, from as int, s@.len() as int) {
                    assert(spec_is_digit(s@[from as int]));
                } else {
                    let w = choose|w: int|
                        from < w < s@.len() && digits_at(s@, from as int, w) && s@[w] == '.'
                            && digits_at(s@, w + 1, s@.len() as int);
                    assert(spec_is_digit(s@[from as int]));
                }
            }
        }
        return false;
    }
    if d == len {
        return true;
    }
    if s.get_char(d) == '.' {
        let e = scan_digits(s, d + 1);
        let hit = e == len && e > d + 1;
        proof {
            if hit {
                assert(digits_at(s@, d + 1, s@.len() as int));
                assert(from < d < s@.len() && digits_at(s@, from as int, d as int));
            } else {
                if spec_versioned_from(s@, from as int) {
                    if digits_at(s@, from as int, s@.len() as int) {
                        assert(spec_is_digit(s@[d as int]));
                        assert(false);
                    } else {
                        let w = choose|w: int|
                            from < w < s@.len() && digits_at(s@, from as int, w) && s@[w] == '.'
                                && digits_at(s@, w + 1, s@.len() as int);
                        if w < d as int {
                            assert(spec_is_digit(s@[w]));
                            assert(false);
                        }
                        if w > d as int {
                            assert(spec_is_digit(s@[d as int]));
                            assert(false);
                        }
                        assert(w == d as int);
                        assert(e == s@.len() && e > d + 1) by {
                            assert(digits_at(s@, d + 1, s@.len() as int));
                            if e < s@.len() {
                                assert(spec_is_digit(s@[e as int]));
                            }
                        }
                        assert(false);
                    }
                }
            }
        }
        hit
    } else {
        proof {
            if spec_versioned_from(s@, from as int) {
                if digits_at(s@, from as int, s@.len() as int) {
                    assert(spec_is_digit(s@[d as int]));
                } else {
                    let w = choose|w: int|
                        from < w < s@.len() && digits_at(s@, from as int, w) && s@[w] == '.'
                            && digits_at(s@, w + 1, s@.len() as int);
                    if w < d as int {
                        assert(spec_is_digit(s@[w]));
                    }
                    if w > d as int {
                        assert(spec_is_digit(s@[d as int]));
                    }
                    assert(w == d as int);
                    assert(s@[d as int] == '.');
                }
            }
        }
        false
    }
}

/// Whether `p` is a prefix of `s`, character by character.
fn has_prefix(s: &str, p: &str) -> (r: bool)
    ensures
        r == (s@.len() >= p@.len() && s@.subrange(0, p@.len() as int) == p@),
{
    let slen = s.unicode_len();
    let plen = p.unicode_len();
    if slen < plen {
        proof {
            if s@.len() >= p@.len() && s@.subrange(0, p@.len() as int) == p@ {
                assert(false);
            }
        }
        return false;
    }
    let mut i: usize = 0;
    while i < plen
        invariant
            i <= plen,
            plen == p@.len(),
            slen == s@.len(),
            plen <= slen,
            forall|j: int| 0 <= j < i ==> s@[j] == p@[j],
        decreases plen - i,
    {
        if s.get_char(i) != p.get_char(i) {
            proof {
                if s@.subrange(0, p@.len() as int) == p@ {
                    assert(s@.subrange(0, p@.len() as int)[i as int] == s@[i as int]);
                }
            }
            return false;
        }
        i = i + 1;
    }
    proof {
        assert(s@.subrange(0, p@.len() as int) =~= p@);
    }
    true
}

/// Whether `name` is a versioned `pip` script, kept out of the entry-point
/// map exactly as the installer's own generated scripts are.
pub fn is_pip_script(name: &str) -> (r: bool)
    ensures
        r == spec_is_pip_script(name@),
{
    if !has_prefix(name, "pip") {
        proof {
            reveal_strlit("pip");
        }
        return false;
    }
    proof {
        reveal_strlit("pip");
        assert(("pip"@).len() == 3);
    }
    let len = name.unicode_len();
    if len <= 3 {
        return false;
    }
    is_versioned_from(name, 3)
}

/// Whether `name` is a versioned `easy_install` script.
pub fn is_easy_install_script(name: &str) -> (r: bool)
    ensures
        r == spec_is_easy_install_script(name@),
{
    if !has_prefix(name, "easy_install-") {
        proof {
            reveal_strlit("easy_install-");
        }
        return false;
    }
    proof {
        reveal_strlit("easy_install-");
        assert(("easy_install-"@).len() == 13);
    }
    let len = name.unicode_len();
    if len <= 13 {
        return false;
    }
    is_versioned_from(name, 13)
}

/// One console or GUI script: the module to import and the function to call.
#[derive(Debug)]
pub struct EntryPoint {
    pub modu: String,
    pub func: String,
    pub gui: bool,
}

impl EntryPoint {
    /// Split a `module:function` value at its first `:`, trimming both
    /// sides; fail when the separator is absent.
    pub fn parse(value: &str, gui: bool) -> (r: Option<EntryPoint>)
        ensures
            match r {
                None => !has_char(value@, ':'),
                Some(ep) => has_char(value@, ':') && {
                    let i = choose|i: int| first_at(value@, ':', i);
                    &&& ep.modu@ == trim_of(value@.subrange(0, i))
                    &&& ep.func@ == trim_of(value@.subrange(i + 1, value@.len() as int))
                    &&& ep.gui == gui
                },
            },
    {
        match find_char(value, ':') {
            None => None,
            Some(i) => {
                let len = value.unicode_len();
                let modu = trim_str(value.substring_char(0, i));
                let func = trim_str(value.substring_char(i + 1, len));
                proof {
                    assert(has_char(value@, ':'));
                    let ci = choose|ci: int| first_at(value@, ':', ci);
                    lemma_first_at_unique(value@, ':', i as int, ci);
                }
                Some(EntryPoint { modu, func, gui })
            },
        }
    }

    pub fn module(&self) -> (r: &str)
        ensures
            r@ == self.modu@,
    {
        self.modu.as_str()
    }

    pub fn function(&self) -> (r: &str)
        ensures
            r@ == self.func@,
    {
        self.func.as_str()
    }
}

/// One parsed section of an `entry_points.txt` file: its name and its
/// `key = value` properties, in file order.
#[derive(Debug)]
pub struct ScriptSection {
    pub name: Option<String>,
    pub entries: Vec<(String, String)>,
}

/// Whether a section declares scripts, and whether they are GUI scripts.
pub open spec fn section_gui(name: Option<String>) -> Option<bool> {
    match name {
        Some(n) => if n@ == "console_scripts"@ {
            Some(false)
        } else if n@ == "gui_scripts"@ {
            Some(true)
        } else {
            None
        },
        None => None,
    }
}

/// Entry `k` of `sec` contributes to the entry-point map: a scripts
/// section, a key that is no versioned installer script, and a value with a
/// `module:function` separator.
pub open spec fn entry_qualifies(sec: ScriptSection, k: int) -> bool {
    &&& section_gui(sec.name) is Some
    &&& 0 <= k < sec.entries@.len()
    &&& !spec_is_pip_script(sec.entries@[k].0@)
    &&& !spec_is_easy_install_script(sec.entries@[k].0@)
    &&& has_char(sec.entries@[k].1@, ':')
}

/// `item` is what entry `k` of `sec` parses to.
pub open spec fn item_from(item: (String, EntryPoint), sec: ScriptSection, k: int) -> bool {
    &&& item.0@ == trim_of(sec.entries@[k].0@)
    &&& item.1.gui == section_gui(sec.name)->Some_0
    &&& {
        let v = sec.entries@[k].1@;
        let i = choose|i: int| first_at(v, ':', i);
        &&& item.1.modu@ == trim_of(v.subrange(0, i))
        &&& item.1.func@ == trim_of(v.subrange(i + 1, v.len() as int))
    }
}

/// Some qualifying section entry parses to `item`.
pub open spec fn provenanced(item: (String, EntryPoint), sections: Seq<ScriptSection>) -> bool {
    exists|s: int, k: int|
        0 <= s < sections.len() && #[trigger] entry_qualifies(sections[s], k) && item_from(
            item,
            sections[s],
            k,
        )
}

/// The console/GUI scripts declared by the walked distributions, keyed by
/// trimmed script name; a later declaration replaces an earlier one.
#[derive(Debug)]
pub struct EntryPoints {
    pub items: Vec<(String, EntryPoint)>,
}

impl EntryPoints {
    pub open spec fn spec_has(self, name: Seq<char>) -> bool {
        exists|x: int| 0 <= x < self.items@.len() && self.items@[x].0@ == name
    }

    pub open spec fn wf(self) -> bool {
        forall|x: int, y: int|
            0 <= x < y < self.items@.len() ==> self.items@[x].0@ != self.items@[y].0@
    }

    /// Record `ep` under `key`, replacing any earlier entry of that name.
    fn put(&mut self, key: String, ep: EntryPoint)
        requires
            old(self).wf(),
        ensures
            final(self).wf(),
            final(self).spec_has(key@),
            forall|n: Seq<char>|
                #[trigger] final(self).spec_has(n) == (old(self).spec_has(n) || n == key@),
            forall|x: int|
                0 <= x < final(self).items@.len() ==> ((exists|y: int|
                    0 <= y < old(self).items@.len() && old(self).items@[y]
                        == final(self).items@[x]) || ((#[trigger] final(self).items@[x]).0@ == key@
                    && final(self).items@[x].1 == ep)),
    {
        let n = self.items.len();
        let mut i: usize = 0;
        while i < n
            invariant
                i <= n,
                self.items == old(self).items,
                old(self).wf(),
                n == self.items@.len(),
                forall|j: int| 0 <= j < i ==> self.items@[j].0@ != key@,
            decreases n - i,
        {
            if crate::strutil::str_eq(self.items[i].0.as_str(), key.as_str()) {
                let ghost seen: int = i as int;
                proof {
                    assert(old(self).items@[seen].0@ == key@);
                }
                self.items.remove(i);
                self.items.insert(i, (key, ep));
                proof {
                    assert(self.items@ =~= old(self).items@.update(seen, self.items@[seen]));
                    assert forall|x: int|
                        0 <= x < self.items@.len() && x != seen implies self.items@[x] == old(
                        self,
                    ).items@[x] by {
                        assert(old(self).items@.update(seen, self.items@[seen])[x] == old(
                            self,
                        ).items@[x]);
                    }
                    assert(self.items@[seen].0@ == key@);
                    assert forall|x: int, y: int|
                        0 <= x < y < self.items@.len() implies self.items@[x].0@
                        != self.items@[y].0@ by {
                        if x == seen {
                            assert(old(self).items@[seen].0@ != old(self).items@[y].0@);
                        } else if y == seen {
                            assert(old(self).items@[x].0@ != old(self).items@[seen].0@);
                        } else {
                            assert(old(self).items@[x].0@ != old(self).items@[y].0@);
                        }
                    }
                    assert forall|m: Seq<char>| #[trigger]
                        self.spec_has(m) == (old(self).spec_has(m) || m == key@) by {
                        if self.spec_has(m) {
                            let k2 = choose|k2: int|
                                0 <= k2 < self.items@.len() && self.items@[k2].0@ == m;
                            if k2 != seen {
                                assert(old(self).items@[k2].0@ == m);
                            }
                        }
                        if old(self).spec_has(m) {
                            let k2 = choose|k2: int|
                                0 <= k2 < old(self).items@.len() && old(self).items@[k2].0@ == m;
                            if k2 != seen {
                                assert(self.items@[k2].0@ == m);
                            }
                        }
                        if m == key@ {
                            assert(self.items@[seen].0@ == m);
                        }
                    }
                }
                return ;
            }
            i = i + 1;
        }
        let ghost gpair = (key, ep);
        let pair = (key, ep);
        proof {
            assert(gpair == pair);
        }
        self.items.push(pair);
        proof {
            let last = old(self).items@.len() as int;
            assert(self.items@ == old(self).items@.push(gpair));
            assert forall|x: int| 0 <= x < last implies self.items@[x] == old(
                self,
            ).items@[x] by {
                assert(old(self).items@.push(gpair)[x] == old(self).items@[x]);
            }
            assert(self.items@[last] == old(self).items@.push(gpair)[last]);
            assert forall|x: int, y: int|
                0 <= x < y < self.items@.len() implies self.items@[x].0@ != self.items@[y].0@ by {
                if y < last {
                    assert(old(self).items@[x].0@ != old(self).items@[y].0@);
                } else {
                    assert(old(self).items@[x].0@ != gpair.0@);
                }
            }
            assert forall|m: Seq<char>| #[trigger]
                self.spec_has(m) == (old(self).spec_has(m) || m == gpair.0@) by {
                if self.spec_has(m) {
                    let k2 = choose|k2: int| 0 <= k2 < self.items@.len() && self.items@[k2].0@ == m;
                    if k2 < last {
                        assert(old(self).items@[k2].0@ == m);
                    }
                }
                if old(self).spec_has(m) {
                    let k2 = choose|k2: int|
                        0 <= k2 < old(self).items@.len() && old(self).items@[k2].0@ == m;
                    assert(self.items@[k2].0@ == m);
                }
            }
            assert(self.spec_has(gpair.0@)) by {
                assert(self.items@[last].0@ == gpair.0@);
            }
        }
    }

    /// Collect the entry points that the given sections declare, reading the
    /// sections in order, `console_scripts` and `gui_scripts` only, with the
    /// versioned installer scripts left out.
    pub fn new(sections: &Vec<ScriptSection>) -> (r: EntryPoints)
        ensures
            r.wf(),
            forall|x: int|
                0 <= x < r.items@.len() ==> provenanced(#[trigger] r.items@[x], sections@),
            forall|s: int, k: int|
                0 <= s < sections@.len() && #[trigger] entry_qualifies(sections@[s], k)
                    ==> r.spec_has(trim_of(sections@[s].entries@[k].0@)),
    {
        let mut out = EntryPoints { items: Vec::new() };
        let n = sections.len();
        let mut si: usize = 0;
        while si < n
            invariant
                si <= n,
                n == sections@.len(),
                out.wf(),
                forall|x: int|
                    0 <= x < out.items@.len() ==> provenanced(#[trigger] out.items@[x], sections@),
                forall|s: int, k: int|
                    0 <= s < si && #[trigger] entry_qualifies(sections@[s], k) ==> out.spec_has(
                        trim_of(sections@[s].entries@[k].0@),
                    ),
            decreases n - si,
        {
            let sec = &sections[si];
            let gui_opt: Option<bool> = match &sec.name {
                None => None,
                Some(nm) => {
                    if crate::strutil::str_eq(nm.as_str(), "console_scripts") {
                        Some(false)
                    } else if crate::strutil::str_eq(nm.as_str(), "gui_scripts") {
                        Some(true)
                    } else {
                        None
                    }
                },
            };
            match gui_opt {
                None => {
                    proof {
                        assert(section_gui(sections@[si as int].name) is None);
                    }
                },
                Some(gui) => {
                    proof {
                        assert(section_gui(sections@[si as int].name) == Some(gui));
                    }
                    let m = sec.entries.len();
                    let mut k: usize = 0;
                    while k < m
                        invariant
                            k <= m,
                            si < n,
                            n == sections@.len(),
                            *sec == sections@[si as int],
                            m == sections@[si as int].entries@.len(),
                            section_gui(sections@[si as int].name) == Some(gui),
                            out.wf(),
                            forall|x: int|
                                0 <= x < out.items@.len() ==> provenanced(
                                    #[trigger] out.items@[x],
                                    sections@,
                                ),
                            forall|s: int, k2: int|
                                0 <= s < si && #[trigger] entry_qualifies(sections@[s], k2)
                                    ==> out.spec_has(trim_of(sections@[s].entries@[k2].0@)),
                            forall|k2: int|
                                0 <= k2 < k && #[trigger] entry_qualifies(sections@[si as int], k2)
                                    ==> out.spec_has(
                                    trim_of(sections@[si as int].entries@[k2].0@),
                                ),
                        decreases m - k,
                    {
                        let scr = &sec.entries[k].0;
                        let val = &sec.entries[k].1;
                        if !is_pip_script(scr.as_str()) && !is_easy_install_script(scr.as_str()) {
                            match EntryPoint::parse(val.as_str(), gui) {
                                None => {
                                    proof {
                                        assert(!entry_qualifies(sections@[si as int], k as int));
                                    }
                                },
                                Some(ep) => {
                                    let ghost gep = ep;
                                    let trimmed = trim_str(scr.as_str());
                                    let ghost gtrimmed = trimmed@;
                                    let ghost pre = out;
                                    proof {
                                        assert(entry_qualifies(sections@[si as int], k as int));
                                        assert(item_from(
                                            (trimmed, gep),
                                            sections@[si as int],
                                            k as int,
                                        ));
                                    }
                                    out.put(trimmed, ep);
                                    proof {
                                        assert(out.spec_has(gtrimmed));
                                        assert(provenanced(
                                            (trimmed, gep),
                                            sections@,
                                        )) by {
                                            assert(entry_qualifies(
                                                sections@[si as int],
                                                k as int,
                                            ));
                                        }
                                        assert forall|x: int|
                                            0 <= x < out.items@.len() implies provenanced(
                                            #[trigger] out.items@[x],
                                            sections@,
                                        ) by {
                                            if exists|y: int|
                                                0 <= y < pre.items@.len() && pre.items@[y]
                                                    == out.items@[x] {
                                                let y = choose|y: int|
                                                    0 <= y < pre.items@.len() && pre.items@[y]
                                                        == out.items@[x];
                                                assert(provenanced(pre.items@[y], sections@));
                                            } else {
                                                assert(out.items@[x].0@ == gtrimmed
                                                    && out.items@[x].1 == gep);
                                                assert(item_from(
                                                    out.items@[x],
                                                    sections@[si as int],
                                                    k as int,
                                                ));
                                                assert(provenanced(out.items@[x], sections@)) by {
                                                    assert(entry_qualifies(
                                                        sections@[si as int],
                                                        k as int,
                                                    ));
                                                }
                                            }
                                        }
                                    }
                                },
                            }
                        } else {
                            proof {
                                assert(!entry_qualifies(sections@[si as int], k as int));
                            }
                        }
                        k = k + 1;
                    }
                },
            }
            si = si + 1;
        }
        out
    }

    pub fn len(&self) -> (r: usize)
        ensures
            r == self.items@.len(),
    {
        self.items.len()
    }

    /// The collected scripts, in insertion order.
    pub fn entries(&self) -> (r: &Vec<(String, EntryPoint)>)
        ensures
            r == &self.items,
    {
        &self.items
    }

    /// The entry point registered under `name`, if any.
    pub fn get(&self, name: &str) -> (r: Option<&EntryPoint>)
        ensures
            match r {
                Some(ep) => exists|x: int|
                    0 <= x < self.items@.len() && self.items@[x].0@ == name@ && self.items@[x].1
                        == *ep,
                None => !self.spec_has(name@),
            },
    {
        let n = self.items.len();
        let mut i: usize = 0;
        while i < n
            invariant
                i <= n,
                n == self.items@.len(),
                forall|j: int| 0 <= j < i ==> self.items@[j].0@ != name@,
            decreases n - i,
        {
            if crate::strutil::str_eq(self.items[i].0.as_str(), name) {
                return Some(&self.items[i].1);
            }
            i = i + 1;
        }
        None
    }
}

} // verus!
