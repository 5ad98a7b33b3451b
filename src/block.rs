//! Host blocking: deny rules, allow suffixes and regexes, fed from list files.
use vstd::prelude::*;
use crate::text::{
    chars_of, cut_at, cut_at_exec, ends_with, has_prefix, has_suffix, str_eq, string_of, trim,
    trim_bounds,
};

verus! {

#[verifier::external_type_specification]
#[verifier::external_body]
pub struct ExRegex(regex::Regex);

#[verifier::external_type_specification]
#[verifier::external_body]
pub struct ExRegexError(regex::Error);

/// Whether `regex::Regex::new` accepts the pattern.
pub uninterp spec fn regex_compiles(pattern: Seq<char>) -> bool;

/// Whether the compiled pattern matches somewhere in the haystack.
pub uninterp spec fn regex_matches(pattern: Seq<char>, haystack: Seq<char>) -> bool;

/// Relies on `regex::Regex::new`: compiles the pattern, or fails with a
/// `regex::Error`; the outcome depends on the pattern alone.
#[verifier::external_body]
fn compile_regex(pattern: &str) -> (r: Result<regex::Regex, regex::Error>)
    ensures
        r is Ok == regex_compiles(pattern@),
{
    regex::Regex::new(pattern)
}

/// Relies on `regex::Regex::is_match`: true iff the pattern the regex was
/// compiled from matches somewhere in `haystack`.
#[verifier::external_body]
fn regex_is_match(re: &BlockRegex, haystack: &str) -> (r: bool)
    ensures
        r == regex_matches(re.source@, haystack@),
{
    re.regex.is_match(haystack)
}

/// A compiled host pattern, known by its source text.
pub struct BlockRegex {
    source: String,
    regex: regex::Regex,
}

impl BlockRegex {
    pub closed spec fn spec_source(&self) -> Seq<char> {
        self.source@
    }

    pub fn new(source: &str) -> (r: Result<BlockRegex, regex::Error>)
        ensures
            r is Ok == regex_compiles(source@),
            r matches Ok(b) ==> b.spec_source() == source@,
    {
        let regex = compile_regex(source)?;
        Ok(BlockRegex { source: String::from_str(source), regex })
    }

    pub fn source(&self) -> (r: &str)
        ensures
            r@ == self.spec_source(),
    {
        self.source.as_str()
    }

    /// Whether the pattern matches somewhere in `haystack`.
    pub fn is_match(&self, haystack: &str) -> (r: bool)
        ensures
            r == regex_matches(self.spec_source(), haystack@),
    {
        regex_is_match(self, haystack)
    }
}

/// Two compiled patterns are equal when their sources are.
impl PartialEq for BlockRegex {
    fn eq(&self, other: &BlockRegex) -> (r: bool) {
        str_eq(self.source.as_str(), other.source.as_str())
    }
}

impl vstd::std_specs::cmp::PartialEqSpecImpl for BlockRegex {
    open spec fn obeys_eq_spec() -> bool {
        true
    }

    open spec fn eq_spec(&self, other: &BlockRegex) -> bool {
        self.spec_source() == other.spec_source()
    }
}

impl Eq for BlockRegex {
}

/// A deny rule: the host exactly, or with `subdomains` every host ending in it.
#[derive(Debug, Clone, PartialEq, Eq, Hash)]
pub struct BlockedDomain {
    pub host: String,
    pub subdomains: bool,
}

/// Whether a deny rule covers `h`.
pub open spec fn deny_matches(host: Seq<char>, subdomains: bool, h: Seq<char>) -> bool {
    if subdomains {
        has_suffix(h, host)
    } else {
        h == host
    }
}

/// The blocker's rule sets. Regex sources are kept unique.
pub struct BlockerData {
    lists: Vec<String>,
    blocks: Vec<BlockedDomain>,
    allows: Vec<String>,
    regex: Vec<BlockRegex>,
}

pub struct Blocker {
    data: BlockerData,
}

/// What one line of a block list says.
pub enum LineRule {
    Skip,
    Block { host: String, subdomains: bool },
    Allow { host: String },
    Regex { source: String },
    Unknown,
}

pub enum RuleModel {
    Skip,
    Block(Seq<char>, bool),
    Allow(Seq<char>),
    Regex(Seq<char>),
    Unknown,
}

impl LineRule {
    pub open spec fn model(&self) -> RuleModel {
        match self {
            LineRule::Skip => RuleModel::Skip,
            LineRule::Block { host, subdomains } => RuleModel::Block(host@, *subdomains),
            LineRule::Allow { host } => RuleModel::Allow(host@),
            LineRule::Regex { source } => RuleModel::Regex(source@),
            LineRule::Unknown => RuleModel::Unknown,
        }
    }
}

pub open spec fn loopback() -> Seq<char> {
    seq!['1', '2', '7', '.', '0', '.', '0', '.', '1']
}

pub open spec fn skip(t: Seq<char>, n: int) -> Seq<char> {
    t.subrange(n, t.len() as int)
}

/// The rule a block-list line states:
/// `||HOST^` blocks HOST and its subdomains; `@@||HOST^` and `@@HOST^` allow
/// HOST as a suffix; `/RE/` is a regex; `127.0.0.1 HOST` blocks HOST exactly;
/// `!` and `#` start comments; a token without spaces blocks that host
/// exactly; anything after `^` is dropped. Blank lines are skipped.
pub open spec fn rule_of(line: Seq<char>) -> RuleModel {
    let t = trim(line);
    if t.len() == 0 {
        RuleModel::Skip
    } else if has_prefix(t, seq!['|', '|']) {
        RuleModel::Block(cut_at(skip(t, 2), '^'), true)
    } else if has_prefix(t, seq!['@', '@']) {
        let u = skip(t, 2);
        if has_prefix(u, seq!['|', '|']) {
            RuleModel::Allow(cut_at(skip(u, 2), '^'))
        } else {
            RuleModel::Allow(cut_at(u, '^'))
        }
    } else if t[0] == '/' {
        if t.len() >= 2 {
            RuleModel::Regex(t.subrange(1, t.len() - 1))
        } else {
            RuleModel::Unknown
        }
    } else if has_prefix(t, loopback()) {
        RuleModel::Block(trim(skip(t, 9)), false)
    } else if t[0] == '!' || t[0] == '#' {
        RuleModel::Skip
    } else if !t.contains(' ') {
        RuleModel::Block(cut_at(t, '^'), false)
    } else {
        RuleModel::Unknown
    }
}

fn prefix_at(v: &Vec<char>, from: usize, to: usize, p: &Vec<char>) -> (r: bool)
    requires
        from <= to <= v@.len(),
    ensures
        r == has_prefix(v@.subrange(from as int, to as int), p@),
{
    if p.len() > to - from {
        return false;
    }
    let mut i: usize = 0;
    while i < p.len()
        invariant
            from + p@.len() <= to <= v@.len(),
            i <= p@.len(),
            forall|k: int| 0 <= k < i ==> v@[from + k] == p@[k],
        decreases p@.len() - i,
    {
        if v[from + i] != p[i] {
            assert(v@.subrange(from as int, to as int).subrange(0, p@.len() as int)[i as int] != p@[i as int]);
            return false;
        }
        i = i + 1;
    }
    assert(v@.subrange(from as int, to as int).subrange(0, p@.len() as int) =~= p@);
    true
}

fn has_space(v: &Vec<char>, from: usize, to: usize) -> (r: bool)
    requires
        from <= to <= v@.len(),
    ensures
        r == v@.subrange(from as int, to as int).contains(' '),
{
    let mut i: usize = from;
    while i < to
        invariant
            from <= i <= to <= v@.len(),
            forall|k: int| from <= k < i ==> v@[k] != ' ',
        decreases to - i,
    {
        if v[i] == ' ' {
            assert(v@.subrange(from as int, to as int)[i - from] == ' ');
            return true;
        }
        i = i + 1;
    }
    assert forall|k: int| 0 <= k < to - from implies v@.subrange(from as int, to as int)[k] != ' ' by {
        assert(v@.subrange(from as int, to as int)[k] == v@[from + k]);
    }
    false
}

/// Parse one block-list line.
pub fn parse_line(line: &str) -> (r: LineRule)
    ensures
        r.model() == rule_of(line@),
{
    let v = chars_of(line);
    let (s, e) = trim_bounds(&v, 0, v.len());
    assert(v@.subrange(0, v@.len() as int) =~= line@);
    let ghost t = v@.subrange(s as int, e as int);
    if s == e {
        return LineRule::Skip;
    }
    let bars = vec!['|', '|'];
    let ats = vec!['@', '@'];
    let lo = vec!['1', '2', '7', '.', '0', '.', '0', '.', '1'];
    assert(bars@ =~= seq!['|', '|']);
    assert(ats@ =~= seq!['@', '@']);
    assert(lo@ =~= loopback());
    if prefix_at(&v, s, e, &bars) {
        assert(skip(t, 2) =~= v@.subrange(s + 2, e as int));
        return LineRule::Block { host: cut_at_exec(&v, s + 2, e, '^'), subdomains: true };
    }
    if prefix_at(&v, s, e, &ats) {
        assert(skip(t, 2) =~= v@.subrange(s + 2, e as int));
        if prefix_at(&v, s + 2, e, &bars) {
            assert(skip(skip(t, 2), 2) =~= v@.subrange(s + 4, e as int));
            return LineRule::Allow { host: cut_at_exec(&v, s + 4, e, '^') };
        }
        return LineRule::Allow { host: cut_at_exec(&v, s + 2, e, '^') };
    }
    assert(t[0] == v@[s as int]);
    if v[s] == '/' {
        if e - s >= 2 {
            assert(t.subrange(1, t.len() - 1) =~= v@.subrange(s + 1, e - 1));
            return LineRule::Regex { source: string_of(&v, s + 1, e - 1) };
        }
        return LineRule::Unknown;
    }
    if prefix_at(&v, s, e, &lo) {
        assert(skip(t, 9) =~= v@.subrange(s + 9, e as int));
        let (s2, e2) = trim_bounds(&v, s + 9, e);
        return LineRule::Block { host: string_of(&v, s2, e2), subdomains: false };
    }
    if v[s] == '!' || v[s] == '#' {
        return LineRule::Skip;
    }
    if !has_space(&v, s, e) {
        return LineRule::Block { host: cut_at_exec(&v, s, e, '^'), subdomains: false };
    }
    LineRule::Unknown
}


/// The blocker's rules: deny rules, allow suffixes, regex sources.
pub struct BlockerModel {
    pub blocks: Seq<(Seq<char>, bool)>,
    pub allows: Seq<Seq<char>>,
    pub regexes: Seq<Seq<char>>,
}

/// Whether the rules block `h`: some deny rule or regex matches it, and no
/// allow suffix does.
pub open spec fn blocked_by(m: BlockerModel, h: Seq<char>) -> bool {
    &&& ((exists|i: int| 0 <= i < m.blocks.len() && deny_matches(m.blocks[i].0, m.blocks[i].1, h))
        || (exists|i: int| 0 <= i < m.regexes.len() && regex_matches(m.regexes[i], h)))
    &&& !(exists|i: int| 0 <= i < m.allows.len() && has_suffix(h, m.allows[i]))
}

/// The rules after taking in one line's rule. A regex joins only if it
/// compiles and its source is new.
pub open spec fn apply_rule(m: BlockerModel, r: RuleModel) -> BlockerModel {
    match r {
        RuleModel::Block(h, s) => BlockerModel { blocks: m.blocks.push((h, s)), ..m },
        RuleModel::Allow(h) => BlockerModel { allows: m.allows.push(h), ..m },
        RuleModel::Regex(src) => if regex_compiles(src) && !m.regexes.contains(src) {
            BlockerModel { regexes: m.regexes.push(src), ..m }
        } else {
            m
        },
        _ => m,
    }
}

/// The rules after taking in each line in order.
pub open spec fn apply_lines(m: BlockerModel, lines: Seq<Seq<char>>) -> BlockerModel
    decreases lines.len(),
{
    if lines.len() == 0 {
        m
    } else {
        apply_lines(apply_rule(m, rule_of(lines[0])), lines.drop_first())
    }
}

/// How many of the lines are deny rules.
pub open spec fn count_blocks(lines: Seq<Seq<char>>) -> nat
    decreases lines.len(),
{
    if lines.len() == 0 {
        0
    } else {
        (if rule_of(lines[0]) is Block {
            1nat
        } else {
            0nat
        }) + count_blocks(lines.drop_first())
    }
}

/// Lines of `s` after the partial line `cur`, split at each newline; a
/// final empty line is not counted.
pub open spec fn split_from(s: Seq<char>, cur: Seq<char>) -> Seq<Seq<char>>
    decreases s.len(),
{
    if s.len() == 0 {
        if cur.len() == 0 {
            Seq::empty()
        } else {
            seq![cur]
        }
    } else if s[0] == '\n' {
        seq![cur] + split_from(s.drop_first(), Seq::empty())
    } else {
        split_from(s.drop_first(), cur.push(s[0]))
    }
}

/// The lines of a text.
pub open spec fn lines_of(s: Seq<char>) -> Seq<Seq<char>> {
    split_from(s, Seq::empty())
}

pub open spec fn strings_view(v: Seq<String>) -> Seq<Seq<char>> {
    v.map_values(|s: String| s@)
}

/// Split a text into lines.
pub fn split_lines(content: &str) -> (r: Vec<String>)
    ensures
        strings_view(r@) == lines_of(content@),
{
    let v = chars_of(content);
    let n = v.len();
    let mut out: Vec<String> = Vec::new();
    let mut start: usize = 0;
    let mut i: usize = 0;
    assert(v@.subrange(0, n as int) =~= v@);
    assert(v@.subrange(0, 0) =~= Seq::<char>::empty());
    assert(strings_view(out@) + lines_of(content@) =~= lines_of(content@));
    while i < n
        invariant
            n == v@.len(),
            v@ == content@,
            start <= i <= n,
            lines_of(content@) == strings_view(out@) + split_from(
                v@.subrange(i as int, n as int),
                v@.subrange(start as int, i as int),
            ),
        decreases n - i,
    {
        let ghost rest = v@.subrange(i as int, n as int);
        assert(rest.drop_first() =~= v@.subrange(i + 1, n as int));
        assert(rest[0] == v@[i as int]);
        if v[i] == '\n' {
            let line = string_of(&v, start, i);
            let ghost before = strings_view(out@);
            out.push(line);
            assert(strings_view(out@) =~= before.push(v@.subrange(start as int, i as int)));
            assert(v@.subrange(i + 1, i + 1) =~= Seq::<char>::empty());
            assert(before + (seq![v@.subrange(start as int, i as int)] + split_from(
                v@.subrange(i + 1, n as int),
                Seq::empty(),
            )) =~= strings_view(out@) + split_from(v@.subrange(i + 1, n as int), Seq::empty()));
            start = i + 1;
        } else {
            assert(v@.subrange(start as int, i as int).push(v@[i as int]) =~= v@.subrange(
                start as int,
                i + 1,
            ));
        }
        i = i + 1;
    }
    let ghost tail = v@.subrange(start as int, n as int);
    assert(v@.subrange(n as int, n as int) =~= Seq::<char>::empty());
    if start < n {
        let line = string_of(&v, start, n);
        let ghost before = strings_view(out@);
        out.push(line);
        assert(strings_view(out@) =~= before.push(tail));
        assert(before + seq![tail] =~= strings_view(out@));
    } else {
        assert(tail =~= Seq::<char>::empty());
        assert(strings_view(out@) + Seq::<Seq<char>>::empty() =~= strings_view(out@));
    }
    out
}

impl BlockerData {
    pub closed spec fn model(&self) -> BlockerModel {
        BlockerModel {
            blocks: self.blocks@.map_values(|b: BlockedDomain| (b.host@, b.subdomains)),
            allows: self.allows@.map_values(|a: String| a@),
            regexes: self.regex@.map_values(|r: BlockRegex| r.source@),
        }
    }

    pub closed spec fn spec_lists(&self) -> Seq<String> {
        self.lists@
    }

    /// Regex sources are unique.
    pub closed spec fn wf(&self) -> bool {
        forall|i: int, j: int|
            0 <= i < j < self.regex@.len() ==> self.regex@[i].source@ != self.regex@[j].source@
    }

    /// No rules yet; `lists` are the sources to read them from.
    pub fn new(lists: Vec<String>) -> (r: Self)
        ensures
            r.wf(),
            r.spec_lists() == lists@,
            r.model().blocks.len() == 0,
            r.model().allows.len() == 0,
            r.model().regexes.len() == 0,
    {
        let r = BlockerData { lists, blocks: Vec::new(), allows: Vec::new(), regex: Vec::new() };
        assert(r.model().blocks =~= Seq::empty());
        r
    }
}

impl Blocker {
    pub closed spec fn model(&self) -> BlockerModel {
        self.data.model()
    }

    pub closed spec fn wf(&self) -> bool {
        self.data.wf()
    }

    pub closed spec fn spec_lists(&self) -> Seq<String> {
        self.data.spec_lists()
    }

    pub fn new(lists: Vec<String>) -> (r: Self)
        ensures
            r.wf(),
            r.spec_lists() == lists@,
            r.model().blocks.len() == 0,
            r.model().allows.len() == 0,
            r.model().regexes.len() == 0,
    {
        Blocker { data: BlockerData::new(lists) }
    }

    /// The list sources the blocker was made with.
    pub fn lists(&self) -> (r: &Vec<String>)
        ensures
            r@ == self.spec_lists(),
    {
        &self.data.lists
    }

    /// Add a deny rule.
    pub fn block(&mut self, host: &str, subdomains: bool)
        requires
            old(self).wf(),
        ensures
            final(self).wf(),
            final(self).spec_lists() == old(self).spec_lists(),
            final(self).model() == apply_rule(old(self).model(), RuleModel::Block(host@, subdomains)),
    {
        let ghost m = self.model();
        self.data.blocks.push(BlockedDomain { host: String::from_str(host), subdomains });
        assert(self.model().blocks =~= m.blocks.push((host@, subdomains)));
        assert(self.model() == apply_rule(m, RuleModel::Block(host@, subdomains)));
    }

    /// Add an allow suffix.
    pub fn unblock(&mut self, host: &str)
        requires
            old(self).wf(),
        ensures
            final(self).wf(),
            final(self).spec_lists() == old(self).spec_lists(),
            final(self).model() == apply_rule(old(self).model(), RuleModel::Allow(host@)),
    {
        let ghost m = self.model();
        self.data.allows.push(String::from_str(host));
        assert(self.model().allows =~= m.allows.push(host@));
        assert(self.model() == apply_rule(m, RuleModel::Allow(host@)));
    }

    /// Add a regex, unless it does not compile or its source is known.
    pub fn add_regex(&mut self, source: &str)
        requires
            old(self).wf(),
        ensures
            final(self).wf(),
            final(self).spec_lists() == old(self).spec_lists(),
            final(self).model() == apply_rule(old(self).model(), RuleModel::Regex(source@)),
    {
        let ghost m = self.model();
        let mut i: usize = 0;
        while i < self.data.regex.len()
            invariant
                i <= self.data.regex@.len(),
                m == self.model(),
                self.wf(),
                self.spec_lists() == old(self).spec_lists(),
                *self == *old(self),
                forall|k: int| 0 <= k < i ==> self.data.regex@[k].source@ != source@,
            decreases self.data.regex@.len() - i,
        {
            if str_eq(self.data.regex[i].source.as_str(), source) {
                assert(m.regexes[i as int] == source@);
                return;
            }
            i = i + 1;
        }
        assert(!m.regexes.contains(source@)) by {
            if m.regexes.contains(source@) {
                let k = choose|k: int| 0 <= k < m.regexes.len() && m.regexes[k] == source@;
                assert(self.data.regex@[k].source@ == source@);
            }
        }
        match BlockRegex::new(source) {
            Ok(compiled) => {
                self.data.regex.push(compiled);
                assert(self.model().regexes =~= m.regexes.push(source@));
            },
            Err(_) => {},
        }
    }

    /// Whether `host` is blocked: some deny rule or regex matches it and no
    /// allow suffix does.
    pub fn is_blocked(&self, host: &str) -> (r: bool)
        ensures
            r == blocked_by(self.model(), host@),
    {
        let ghost m = self.model();
        let mut denied = false;
        let mut i: usize = 0;
        while i < self.data.blocks.len() && !denied
            invariant
                i <= self.data.blocks@.len(),
                m == self.model(),
                denied ==> exists|k: int| 0 <= k < m.blocks.len() && deny_matches(m.blocks[k].0, m.blocks[k].1, host@),
                !denied ==> forall|k: int| 0 <= k < i ==> !deny_matches(m.blocks[k].0, m.blocks[k].1, host@),
            decreases self.data.blocks@.len() - i,
        {
            let b = &self.data.blocks[i];
            assert(m.blocks[i as int] == (b.host@, b.subdomains));
            let hit = if b.subdomains {
                ends_with(host, b.host.as_str())
            } else {
                str_eq(host, b.host.as_str())
            };
            if hit {
                denied = true;
            }
            i = i + 1;
        }
        let mut j: usize = 0;
        while j < self.data.regex.len() && !denied
            invariant
                j <= self.data.regex@.len(),
                m == self.model(),
                denied ==> (exists|k: int| 0 <= k < m.blocks.len() && deny_matches(m.blocks[k].0, m.blocks[k].1, host@))
                    || (exists|k: int| 0 <= k < m.regexes.len() && regex_matches(m.regexes[k], host@)),
                !denied ==> forall|k: int| 0 <= k < m.blocks.len() ==> !deny_matches(m.blocks[k].0, m.blocks[k].1, host@),
                !denied ==> forall|k: int| 0 <= k < j ==> !regex_matches(m.regexes[k], host@),
            decreases self.data.regex@.len() - j,
        {
            assert(m.regexes[j as int] == self.data.regex@[j as int].source@);
            if regex_is_match(&self.data.regex[j], host) {
                denied = true;
            }
            j = j + 1;
        }
        if !denied {
            return false;
        }
        let mut k: usize = 0;
        while k < self.data.allows.len()
            invariant
                k <= self.data.allows@.len(),
                m == self.model(),
                forall|x: int| 0 <= x < k ==> !has_suffix(host@, m.allows[x]),
            decreases self.data.allows@.len() - k,
        {
            assert(m.allows[k as int] == self.data.allows@[k as int]@);
            if ends_with(host, self.data.allows[k].as_str()) {
                return false;
            }
            k = k + 1;
        }
        true
    }

    /// Take in one rule; returns whether it was a deny rule.
    fn apply(&mut self, rule: LineRule) -> (r: bool)
        requires
            old(self).wf(),
        ensures
            final(self).wf(),
            final(self).spec_lists() == old(self).spec_lists(),
            final(self).model() == apply_rule(old(self).model(), rule.model()),
            r == rule.model() is Block,
    {
        match rule {
            LineRule::Block { host, subdomains } => {
                self.block(host.as_str(), subdomains);
                true
            },
            LineRule::Allow { host } => {
                self.unblock(host.as_str());
                false
            },
            LineRule::Regex { source } => {
                self.add_regex(source.as_str());
                false
            },
            _ => false,
        }
    }

    /// Take in the rules of a block list, line by line; returns how many
    /// lines were deny rules.
    pub fn parse_hosts(&mut self, content: &str) -> (r: u64)
        requires
            old(self).wf(),
        ensures
            final(self).wf(),
            final(self).spec_lists() == old(self).spec_lists(),
            final(self).model() == apply_lines(old(self).model(), lines_of(content@)),
            r == count_blocks(lines_of(content@)),
    {
        let lines = split_lines(content);
        let ghost all = strings_view(lines@);
        let mut blocked: u64 = 0;
        let mut i: usize = 0;
        assert(all.subrange(0, all.len() as int) =~= all);
        while i < lines.len()
            invariant
                self.wf(),
                self.spec_lists() == old(self).spec_lists(),
                all == strings_view(lines@),
                all == lines_of(content@),
                i <= lines@.len(),
                blocked <= i,
                apply_lines(old(self).model(), all) == apply_lines(self.model(), all.subrange(i as int, all.len() as int)),
                count_blocks(all) == blocked + count_blocks(all.subrange(i as int, all.len() as int)),
            decreases lines@.len() - i,
        {
            let ghost rest = all.subrange(i as int, all.len() as int);
            assert(rest[0] == lines@[i as int]@);
            assert(rest.drop_first() =~= all.subrange(i + 1, all.len() as int));
            let rule = parse_line(lines[i].as_str());
            if self.apply(rule) {
                blocked = blocked + 1;
            }
            i = i + 1;
        }
        blocked
    }
}

/// An allow suffix always wins: a host ending in any allow-list entry is
/// never blocked, whatever deny rules or regexes match it.
pub proof fn lemma_allow_overrides_deny(m: BlockerModel, h: Seq<char>, i: int)
    requires
        0 <= i < m.allows.len(),
        has_suffix(h, m.allows[i]),
    ensures
        !blocked_by(m, h),
{
}

} // verus!
