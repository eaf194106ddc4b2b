//! The extension registry: the capability lines of the EHLO reply, parsed
//! into a name -> parameter-text map, and the interface an extension helper
//! implements to be built from its advertised parameters.
use vstd::prelude::*;
use vstd::string::*;

verus! {

/// ASCII case folding of one character, as its scalar value: the lower-case
/// letters map onto the upper-case ones, everything else is itself.
pub open spec fn upper_u32(c: char) -> u32 {
    if 97 <= c as u32 <= 122 {
        (c as u32 - 32) as u32
    } else {
        c as u32
    }
}

/// Equality of two texts up to ASCII case.
pub open spec fn fold_eq(a: Seq<char>, b: Seq<char>) -> bool {
    a.len() == b.len() && (forall|i: int| 0 <= i < a.len() ==> upper_u32(a[i]) == upper_u32(b[i]))
}

/// Compares two names up to ASCII case.
pub fn eq_ignore_ascii_case(a: &str, b: &str) -> (r: bool)
    ensures
        r == fold_eq(a@, b@),
{
    let alen = a.unicode_len();
    let blen = b.unicode_len();
    if alen != blen {
        return false;
    }
    let mut i: usize = 0;
    while i < alen
        invariant
            alen == a@.len(),
            blen == b@.len(),
            alen == blen,
            i <= alen,
            forall|j: int| 0 <= j < i ==> upper_u32(a@[j]) == upper_u32(b@[j]),
        decreases alen - i,
    {
        let ca = a.get_char(i) as u32;
        let cb = b.get_char(i) as u32;
        let ua = if 97 <= ca && ca <= 122 {
            ca - 32
        } else {
            ca
        };
        let ub = if 97 <= cb && cb <= 122 {
            cb - 32
        } else {
            cb
        };
        if ua != ub {
            return false;
        }
        i = i + 1;
    }
    true
}

/// Compares two texts character by character.
pub fn str_eq(a: &str, b: &str) -> (r: bool)
    ensures
        r == (a@ == b@),
{
    let alen = a.unicode_len();
    let blen = b.unicode_len();
    if alen != blen {
        return false;
    }
    let mut i: usize = 0;
    while i < alen
        invariant
            alen == a@.len(),
            blen == b@.len(),
            alen == blen,
            i <= alen,
            forall|j: int| 0 <= j < i ==> a@[j] == b@[j],
        decreases alen - i,
    {
        if a.get_char(i) != b.get_char(i) {
            return false;
        }
        i = i + 1;
    }
    proof {
        assert(a@ =~= b@);
    }
    true
}

/// First position of `c` in `s`, or -1 when it does not occur.
pub open spec fn find_char(s: Seq<char>, c: char) -> int
    decreases s.len(),
{
    if s.len() == 0 {
        -1
    } else if s[0] == c {
        0
    } else if find_char(s.skip(1), c) < 0 {
        -1
    } else {
        find_char(s.skip(1), c) + 1
    }
}

/// `find_char` marks the first occurrence exactly.
pub proof fn lemma_find_char(s: Seq<char>, c: char)
    ensures
        find_char(s, c) == -1 ==> forall|j: int| 0 <= j < s.len() ==> s[j] != c,
        find_char(s, c) >= 0 ==> find_char(s, c) < s.len() && s[find_char(s, c)] == c && (forall|
            j: int,
        |
            0 <= j < find_char(s, c) ==> s[j] != c),
    decreases s.len(),
{
    if s.len() == 0 {
    } else if s[0] == c {
    } else {
        lemma_find_char(s.skip(1), c);
        assert forall|j: int| 1 <= j < s.len() implies s[j] == s.skip(1)[j - 1] by {}
    }
}

/// One registry entry, at specification level: a name and its optional
/// parameter text.
#[verifier::ext_equal]
pub struct SpecEntry {
    pub name: Seq<char>,
    pub params: Option<Seq<char>>,
}

/// Splits a capability line at its first space: the name on the left, the
/// parameter text on the right; a line with no space is all name.
pub open spec fn spec_line_entry(line: Seq<char>) -> SpecEntry {
    let i = find_char(line, ' ');
    if i < 0 {
        SpecEntry { name: line, params: None }
    } else {
        SpecEntry { name: line.take(i), params: Some(line.skip(i + 1)) }
    }
}

/// Splits a line at its first space, when it has one.
pub fn split_first_space(line: &str) -> (r: (String, Option<String>))
    ensures
        r.0@ == spec_line_entry(line@).name,
        match r.1 {
            Some(p) => spec_line_entry(line@).params == Some(p@),
            None => spec_line_entry(line@).params is None,
        },
{
    let n = line.unicode_len();
    let mut i: usize = 0;
    proof {
        lemma_find_char(line@, ' ');
    }
    while i < n
        invariant
            n == line@.len(),
            i <= n,
            forall|j: int| 0 <= j < i ==> line@[j] != ' ',
        decreases n - i,
    {
        if line.get_char(i) == ' ' {
            proof {
                lemma_find_char(line@, ' ');
                assert(find_char(line@, ' ') == i);
            }
            let name = line.substring_char(0, i).to_owned();
            let params = line.substring_char(i + 1, n).to_owned();
            return (name, Some(params));
        }
        i = i + 1;
    }
    proof {
        lemma_find_char(line@, ' ');
        if find_char(line@, ' ') >= 0 {
            assert(line@[find_char(line@, ' ')] == ' ');
        }
    }
    (line.to_owned(), None)
}

/// First entry whose name matches `name` up to ASCII case.
pub open spec fn spec_lookup(s: Seq<SpecEntry>, name: Seq<char>) -> Option<Option<Seq<char>>>
    decreases s.len(),
{
    if s.len() == 0 {
        None
    } else if fold_eq(s[0].name, name) {
        Some(s[0].params)
    } else {
        spec_lookup(s.skip(1), name)
    }
}

/// Adding an entry: the first case-matching entry is replaced, else the new
/// entry goes to the end.
pub open spec fn spec_insert(s: Seq<SpecEntry>, name: Seq<char>, params: Option<Seq<char>>) -> Seq<
    SpecEntry,
>
    decreases s.len(),
{
    if s.len() == 0 {
        seq![SpecEntry { name, params }]
    } else if fold_eq(s[0].name, name) {
        seq![SpecEntry { name, params }] + s.skip(1)
    } else {
        seq![s[0]] + spec_insert(s.skip(1), name, params)
    }
}

/// The registry built from the capability lines, in order.
pub open spec fn spec_cap_entries(lines: Seq<Seq<char>>) -> Seq<SpecEntry>
    decreases lines.len(),
{
    if lines.len() == 0 {
        Seq::empty()
    } else {
        let e = spec_line_entry(lines.last());
        spec_insert(spec_cap_entries(lines.drop_last()), e.name, e.params)
    }
}

/// The capability map: extension name -> optional parameter text, rebuilt
/// fresh on every handshake, matched up to ASCII case.
pub struct CapabilityMap {
    pub entries: Vec<(String, Option<String>)>,
}

/// Optional parameter text, as text.
pub open spec fn option_view(p: Option<String>) -> Option<Seq<char>> {
    match p {
        Some(s) => Some(s@),
        None => None,
    }
}

/// One stored entry, as text.
pub open spec fn entry_view(p: (String, Option<String>)) -> SpecEntry {
    SpecEntry { name: p.0@, params: option_view(p.1) }
}

impl CapabilityMap {
    /// The entries, as text.
    pub open spec fn entries_view(&self) -> Seq<SpecEntry> {
        self.entries@.map_values(|p: (String, Option<String>)| entry_view(p))
    }

    /// An empty registry.
    pub fn new() -> (r: CapabilityMap)
        ensures
            r.entries_view() == Seq::<SpecEntry>::empty(),
    {
        let r = CapabilityMap { entries: Vec::new() };
        proof {
            assert(r.entries_view() =~= Seq::<SpecEntry>::empty());
        }
        r
    }

    /// Adds an entry, replacing the first entry of the same name (up to
    /// ASCII case) when there is one.
    pub fn insert(&mut self, name: String, params: Option<String>)
        ensures
            final(self).entries_view() == spec_insert(
                old(self).entries_view(),
                name@,
                option_view(params),
            ),
    {
        let ghost pview = option_view(params);
        let n = self.entries.len();
        let mut i: usize = 0;
        while i < n
            invariant
                n == self.entries@.len(),
                i <= n,
                self == old(self),
                pview == option_view(params),
                forall|j: int| 0 <= j < i ==> !fold_eq(old(self).entries_view()[j].name, name@),
            decreases n - i,
        {
            if eq_ignore_ascii_case(self.entries[i].0.as_str(), name.as_str()) {
                let ghost old_entries = self.entries@;
                let ghost old_view = self.entries_view();
                let ghost gname = name@;
                let ghost gentry: (String, Option<String>) = (name, params);
                proof {
                    assert(entry_view(gentry) =~= SpecEntry { name: gname, params: pview });
                }
                self.entries.remove(i);
                self.entries.insert(i, (name, params));
                proof {
                    assert(self.entries@ =~= old_entries.update(i as int, gentry));
                    lemma_insert_at(old_view, i as int, gname, pview);
                    let target = old_view.update(i as int, SpecEntry { name: gname, params: pview });
                    assert forall|j: int| 0 <= j < self.entries_view().len() implies self
                        .entries_view()[j] == target[j] by {
                        assert(self.entries_view()[j] == entry_view(self.entries@[j]));
                        if j == i {
                            assert(self.entries@[j] == gentry);
                        } else {
                            assert(self.entries@[j] == old_entries[j]);
                            assert(target[j] == old_view[j]);
                            assert(old_view[j] == entry_view(old_entries[j]));
                        }
                    }
                    assert(self.entries_view() =~= target);
                }
                return ;
            }
            i = i + 1;
        }
        let ghost old_view = self.entries_view();
        let ghost old_entries = self.entries@;
        let ghost gname = name@;
        let ghost gentry: (String, Option<String>) = (name, params);
        proof {
            assert(entry_view(gentry) =~= SpecEntry { name: gname, params: pview });
        }
        self.entries.push((name, params));
        proof {
            assert(self.entries@ =~= old_entries.push(gentry));
            lemma_insert_absent(old_view, gname, pview);
            let target = old_view.push(SpecEntry { name: gname, params: pview });
            assert forall|j: int| 0 <= j < self.entries_view().len() implies self.entries_view()[j]
                == target[j] by {
                assert(self.entries_view()[j] == entry_view(self.entries@[j]));
                if j < old_entries.len() {
                    assert(self.entries@[j] == old_entries[j]);
                    assert(old_view[j] == entry_view(old_entries[j]));
                } else {
                    assert(self.entries@[j] == gentry);
                }
            }
            assert(self.entries_view() =~= target);
        }
    }

    /// The parameter text stored under `name`, matched up to ASCII case:
    /// `None` when the name is absent, `Some(None)` when it is present
    /// without parameters.
    pub fn lookup(&self, name: &str) -> (r: Option<Option<String>>)
        ensures
            match r {
                None => spec_lookup(self.entries_view(), name@) is None,
                Some(None) => spec_lookup(self.entries_view(), name@) == Some(None::<Seq<char>>),
                Some(Some(p)) => spec_lookup(self.entries_view(), name@) == Some(Some(p@)),
            },
    {
        let n = self.entries.len();
        let mut i: usize = 0;
        proof {
            assert(self.entries_view().skip(0) =~= self.entries_view());
        }
        while i < n
            invariant
                n == self.entries@.len(),
                i <= n,
                spec_lookup(self.entries_view(), name@) == spec_lookup(
                    self.entries_view().skip(i as int),
                    name@,
                ),
            decreases n - i,
        {
            proof {
                assert(self.entries_view().skip(i as int)[0] == self.entries_view()[i as int]);
            }
            if eq_ignore_ascii_case(self.entries[i].0.as_str(), name) {
                let p = match &self.entries[i].1 {
                    Some(s) => Some(s.clone()),
                    None => None,
                };
                return Some(p);
            }
            proof {
                assert(self.entries_view().skip(i as int).skip(1) =~= self.entries_view().skip(
                    i + 1,
                ));
            }
            i = i + 1;
        }
        proof {
            assert(self.entries_view().skip(n as int).len() == 0);
        }
        None
    }

    /// How many entries the registry holds.
    pub fn len(&self) -> (r: usize)
        ensures
            r == self.entries_view().len(),
    {
        self.entries.len()
    }
}

/// Replacing the first case-matching entry, seen from `spec_insert`.
proof fn lemma_insert_at(s: Seq<SpecEntry>, i: int, name: Seq<char>, params: Option<Seq<char>>)
    requires
        0 <= i < s.len(),
        fold_eq(s[i].name, name),
        forall|j: int| 0 <= j < i ==> !fold_eq(s[j].name, name),
    ensures
        spec_insert(s, name, params) == s.update(i, SpecEntry { name, params }),
    decreases s.len(),
{
    if i == 0 {
        assert(spec_insert(s, name, params) =~= s.update(0, SpecEntry { name, params }));
    } else {
        lemma_insert_at(s.skip(1), i - 1, name, params);
        assert(s.skip(1)[i - 1] == s[i]);
        assert forall|j: int| 0 <= j < i - 1 implies !fold_eq(s.skip(1)[j].name, name) by {
            assert(s.skip(1)[j] == s[j + 1]);
        }
        assert(spec_insert(s, name, params) =~= s.update(i, SpecEntry { name, params }));
    }
}

/// Adding an entry under a fresh name, seen from `spec_insert`.
proof fn lemma_insert_absent(s: Seq<SpecEntry>, name: Seq<char>, params: Option<Seq<char>>)
    requires
        forall|j: int| 0 <= j < s.len() ==> !fold_eq(s[j].name, name),
    ensures
        spec_insert(s, name, params) == s.push(SpecEntry { name, params }),
    decreases s.len(),
{
    if s.len() == 0 {
        assert(spec_insert(s, name, params) =~= s.push(SpecEntry { name, params }));
    } else {
        lemma_insert_absent(s.skip(1), name, params);
        assert forall|j: int| 0 <= j < s.skip(1).len() implies !fold_eq(
            s.skip(1)[j].name,
            name,
        ) by {
            assert(s.skip(1)[j] == s[j + 1]);
        }
        assert(spec_insert(s, name, params) =~= s.push(SpecEntry { name, params }));
    }
}

/// Builds the registry from the text lines of an EHLO reply: the first line
/// (the banner) is skipped; every other line is split at its first space and
/// stored.
pub fn parse_capabilities(lines: &Vec<String>) -> (r: CapabilityMap)
    requires
        lines@.len() >= 1,
    ensures
        r.entries_view() == spec_cap_entries(lines@.map_values(|s: String| s@).skip(1)),
{
    let ghost lv = lines@.map_values(|s: String| s@);
    let mut map = CapabilityMap::new();
    let n = lines.len();
    let mut k: usize = 1;
    proof {
        assert(lv.skip(1).take(0) =~= Seq::<Seq<char>>::empty());
    }
    while k < n
        invariant
            n == lines@.len(),
            lv == lines@.map_values(|s: String| s@),
            1 <= k <= n,
            map.entries_view() == spec_cap_entries(lv.skip(1).take(k - 1)),
        decreases n - k,
    {
        let (name, params) = split_first_space(lines[k].as_str());
        let ghost gname = name@;
        let ghost gparams = option_view(params);
        map.insert(name, params);
        proof {
            let cap = lv.skip(1).take(k as int);
            assert(cap.drop_last() =~= lv.skip(1).take(k - 1));
            assert(cap.last() == lv[k as int]);
            assert(spec_line_entry(lv[k as int]).name == gname);
            assert(spec_line_entry(lv[k as int]).params == gparams);
            assert(map.entries_view() =~= spec_cap_entries(cap));
        }
        k = k + 1;
    }
    proof {
        assert(lv.skip(1).take(n - 1) =~= lv.skip(1));
    }
    map
}

/// The tokens of a text, split at every occurrence of `c`. Splitting keeps
/// empty tokens, as two separators in a row produce one.
pub open spec fn spec_split_char(s: Seq<char>, c: char) -> Seq<Seq<char>>
    decreases s.len(),
{
    let i = find_char(s, c);
    if i < 0 {
        seq![s]
    } else if 0 <= i && i < s.len() {
        seq![s.take(i)] + spec_split_char(s.skip(i + 1), c)
    } else {
        seq![s]
    }
}

/// The tokens of a parameter text, split at every space.
pub open spec fn spec_split_spaces(s: Seq<char>) -> Seq<Seq<char>> {
    spec_split_char(s, ' ')
}

/// Splits a text at every occurrence of `c`.
pub fn split_char(text: &str, c: char) -> (r: Vec<String>)
    ensures
        r@.map_values(|s: String| s@) == spec_split_char(text@, c),
{
    let n = text.unicode_len();
    let mut out: Vec<String> = Vec::new();
    let mut start: usize = 0;
    let mut i: usize = 0;
    proof {
        assert(out@.map_values(|s: String| s@) =~= Seq::<Seq<char>>::empty());
        assert(text@.skip(0) =~= text@);
    }
    while i < n
        invariant
            n == text@.len(),
            start <= i && i <= n,
            spec_split_char(text@, c) == out@.map_values(|s: String| s@) + spec_split_char(
                text@.skip(start as int),
                c,
            ),
            forall|j: int| 0 <= j < i - start ==> text@.skip(start as int)[j] != c,
        decreases n - i,
    {
        if text.get_char(i) == c {
            let token = text.substring_char(start, i).to_owned();
            proof {
                let tail = text@.skip(start as int);
                assert(tail[i - start] == text@[i as int]);
                lemma_find_char_at(tail, c, i - start);
                assert(tail.take(i - start) =~= text@.subrange(start as int, i as int));
                assert(tail.skip(i - start + 1) =~= text@.skip(i + 1));
                assert((out@.push(token)).map_values(|s: String| s@) =~= out@.map_values(
                    |s: String| s@,
                ) + seq![token@]);
                assert(out@.map_values(|s: String| s@) + spec_split_char(tail, c) =~= (out@.push(
                    token,
                )).map_values(|s: String| s@) + spec_split_char(text@.skip(i + 1), c));
            }
            out.push(token);
            start = i + 1;
            i = start;
        } else {
            proof {
                assert(text@.skip(start as int)[i - start] == text@[i as int]);
            }
            i = i + 1;
        }
    }
    let token = text.substring_char(start, n).to_owned();
    proof {
        let tail = text@.skip(start as int);
        lemma_find_char(tail, c);
        if find_char(tail, c) >= 0 {
            assert(tail[find_char(tail, c)] == c);
        }
        assert(spec_split_char(tail, c) == seq![tail]);
        assert(token@ =~= tail);
        assert((out@.push(token)).map_values(|s: String| s@) =~= out@.map_values(|s: String| s@)
            + seq![tail]);
    }
    out.push(token);
    out
}

/// Splits a parameter text into its space-separated tokens.
pub fn split_spaces(text: &str) -> (r: Vec<String>)
    ensures
        r@.map_values(|s: String| s@) == spec_split_spaces(text@),
{
    split_char(text, ' ')
}

/// The first occurrence pins `find_char` down.
pub proof fn lemma_find_char_at(s: Seq<char>, c: char, k: int)
    requires
        0 <= k < s.len(),
        s[k] == c,
        forall|j: int| 0 <= j < k ==> s[j] != c,
    ensures
        find_char(s, c) == k,
{
    lemma_find_char(s, c);
    let f = find_char(s, c);
    if f == -1 {
        assert(s[k] != c);
    } else if f < k {
        assert(s[f] != c);
    } else if f > k {
        assert(s[k] != c);
    }
}

/// What an extension helper is: a static name looked up in the registry, and
/// a constructor fed the advertised parameter tokens.
pub trait Extension: Sized {
    /// The registry name the helper is looked up under.
    spec fn spec_name() -> Seq<char>;

    /// What a helper built from these tokens holds.
    spec fn spec_registered(params: Seq<Seq<char>>, r: &Self) -> bool;

    fn name() -> (r: &'static str)
        ensures
            r@ == Self::spec_name(),
    ;

    fn register(params: &Vec<String>) -> (r: Self)
        ensures
            Self::spec_registered(params@.map_values(|s: String| s@), &r),
    ;
}

} // verus!
