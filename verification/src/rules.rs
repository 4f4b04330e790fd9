//! The rule engine: rules fire on tag sets, are ranked by weight, and their
//! baits and target structures are merged into suggestions.
use vstd::prelude::*;
use vstd::utf8::encode_utf8;
use crate::tags::{string_views, TagSet};

verus! {

// ---------------------------------------------------------------------------
// Data
// ---------------------------------------------------------------------------

/// One bait a rule recommends.
#[derive(Debug)]
pub struct BaitOption {
    pub category: String,
    pub rig: Option<String>,
    pub variant: Option<String>,
    pub colors: Vec<String>,
}

/// A rule: fires when every tag in `requires` is present.
#[derive(Debug)]
pub struct Rule {
    pub id: String,
    pub requires: Vec<String>,
    pub weight: u32,
    pub baits: Vec<BaitOption>,
    pub retrieve: String,
    pub target_structure: Vec<String>,
    pub why: String,
}

/// The contents of a rules file.
#[derive(Debug)]
pub struct RuleFile {
    pub rules: Vec<Rule>,
}

#[derive(Clone, Copy, Debug, PartialEq, Eq, Structural)]
pub enum Confidence {
    High,
    Medium,
    Low,
}

/// A merged bait suggestion.
#[derive(Debug)]
pub struct Suggestion {
    pub bait_category: String,
    pub rig: Option<String>,
    pub variant: Option<String>,
    pub colors: Vec<String>,
    pub retrieve: String,
    pub confidence: Confidence,
    pub why: Vec<String>,
}

/// A merged structure suggestion.
#[derive(Debug)]
pub struct StructureSuggestion {
    pub feature: String,
    pub why: Vec<String>,
}

// ---------------------------------------------------------------------------
// Views
// ---------------------------------------------------------------------------

pub open spec fn opt_view(o: Option<String>) -> Option<Seq<char>> {
    match o {
        Some(s) => Some(s@),
        None => None,
    }
}

pub struct BaitView {
    pub category: Seq<char>,
    pub rig: Option<Seq<char>>,
    pub variant: Option<Seq<char>>,
    pub colors: Seq<Seq<char>>,
}

pub struct RuleView {
    pub id: Seq<char>,
    pub requires: Seq<Seq<char>>,
    pub weight: u32,
    pub baits: Seq<BaitView>,
    pub retrieve: Seq<char>,
    pub target_structure: Seq<Seq<char>>,
    pub why: Seq<char>,
}

pub struct SuggestionView {
    pub bait_category: Seq<char>,
    pub rig: Option<Seq<char>>,
    pub variant: Option<Seq<char>>,
    pub colors: Seq<Seq<char>>,
    pub retrieve: Seq<char>,
    pub confidence: Confidence,
    pub why: Seq<Seq<char>>,
}

pub struct StructureView {
    pub feature: Seq<char>,
    pub why: Seq<Seq<char>>,
}

impl View for BaitOption {
    type V = BaitView;

    open spec fn view(&self) -> BaitView {
        BaitView {
            category: self.category@,
            rig: opt_view(self.rig),
            variant: opt_view(self.variant),
            colors: string_views(self.colors@),
        }
    }
}

pub open spec fn bait_views(v: Seq<BaitOption>) -> Seq<BaitView> {
    v.map_values(|b: BaitOption| b@)
}

impl View for Rule {
    type V = RuleView;

    open spec fn view(&self) -> RuleView {
        RuleView {
            id: self.id@,
            requires: string_views(self.requires@),
            weight: self.weight,
            baits: bait_views(self.baits@),
            retrieve: self.retrieve@,
            target_structure: string_views(self.target_structure@),
            why: self.why@,
        }
    }
}

pub open spec fn rule_views(v: Seq<Rule>) -> Seq<RuleView> {
    v.map_values(|r: Rule| r@)
}

impl View for Suggestion {
    type V = SuggestionView;

    open spec fn view(&self) -> SuggestionView {
        SuggestionView {
            bait_category: self.bait_category@,
            rig: opt_view(self.rig),
            variant: opt_view(self.variant),
            colors: string_views(self.colors@),
            retrieve: self.retrieve@,
            confidence: self.confidence,
            why: string_views(self.why@),
        }
    }
}

pub open spec fn suggestion_views(v: Seq<Suggestion>) -> Seq<SuggestionView> {
    v.map_values(|s: Suggestion| s@)
}

impl View for StructureSuggestion {
    type V = StructureView;

    open spec fn view(&self) -> StructureView {
        StructureView { feature: self.feature@, why: string_views(self.why@) }
    }
}

pub open spec fn structure_views(v: Seq<StructureSuggestion>) -> Seq<StructureView> {
    v.map_values(|s: StructureSuggestion| s@)
}

// ---------------------------------------------------------------------------
// Matching and ranking
// ---------------------------------------------------------------------------

/// A rule fires iff every tag it requires is present.
pub open spec fn fires(r: RuleView, tags: Set<Seq<char>>) -> bool {
    forall|i: int| 0 <= i < r.requires.len() ==> tags.contains(#[trigger] r.requires[i])
}

/// The firing rules, in file order.
pub open spec fn matching(rules: Seq<RuleView>, tags: Set<Seq<char>>) -> Seq<RuleView>
    decreases rules.len(),
{
    if rules.len() == 0 {
        Seq::empty()
    } else {
        let m = matching(rules.drop_last(), tags);
        if fires(rules.last(), tags) {
            m.push(rules.last())
        } else {
            m
        }
    }
}

/// Strict lexicographic order of byte strings.
pub open spec fn bytes_before(a: Seq<u8>, b: Seq<u8>) -> bool
    decreases a.len(),
{
    if a.len() == 0 {
        b.len() > 0
    } else if b.len() == 0 {
        false
    } else if a[0] < b[0] {
        true
    } else if a[0] > b[0] {
        false
    } else {
        bytes_before(a.drop_first(), b.drop_first())
    }
}

/// Strict order of strings: by their UTF-8 bytes.
pub open spec fn text_before(a: Seq<char>, b: Seq<char>) -> bool {
    bytes_before(encode_utf8(a), encode_utf8(b))
}

/// `a` ranks strictly before `b`: higher weight, or equal weight and a
/// smaller id.
pub open spec fn ranks_before(a: RuleView, b: RuleView) -> bool {
    a.weight > b.weight || (a.weight == b.weight && text_before(a.id, b.id))
}

/// Inserts `r` into a ranked sequence after every rule it does not rank
/// strictly before.
pub open spec fn insert_ranked(s: Seq<RuleView>, r: RuleView) -> Seq<RuleView>
    decreases s.len(),
{
    if s.len() == 0 {
        seq![r]
    } else if ranks_before(r, s[0]) {
        seq![r] + s
    } else {
        seq![s[0]] + insert_ranked(s.drop_first(), r)
    }
}

/// Stable sort by `ranks_before`: weight descending, ties by id ascending,
/// remaining ties in their original order.
pub open spec fn rank(s: Seq<RuleView>) -> Seq<RuleView>
    decreases s.len(),
{
    if s.len() == 0 {
        Seq::empty()
    } else {
        insert_ranked(rank(s.drop_last()), s.last())
    }
}

/// The contributing rules: the firing rules ranked, truncated to `top_n`.
pub open spec fn top_rules(rules: Seq<RuleView>, tags: Set<Seq<char>>, top_n: int) -> Seq<
    RuleView,
> {
    let ranked = rank(matching(rules, tags));
    if top_n < ranked.len() {
        ranked.take(top_n)
    } else {
        ranked
    }
}

// ---------------------------------------------------------------------------
// Merging
// ---------------------------------------------------------------------------

/// Weight 8 and up is high confidence, 4 and up medium, below that low.
pub open spec fn confidence_of(weight: int) -> Confidence {
    if weight >= 8 {
        Confidence::High
    } else if weight >= 4 {
        Confidence::Medium
    } else {
        Confidence::Low
    }
}

/// Low < Medium < High.
pub open spec fn confidence_rank(c: Confidence) -> int {
    match c {
        Confidence::Low => 0,
        Confidence::Medium => 1,
        Confidence::High => 2,
    }
}

/// A heavier rule never gets a lower confidence.
pub proof fn confidence_is_monotone(a: int, b: int)
    requires
        a <= b,
    ensures
        confidence_rank(confidence_of(a)) <= confidence_rank(confidence_of(b)),
{
}

/// The suggestion a bait of a rule makes on its own.
pub open spec fn new_suggestion(r: RuleView, b: BaitView) -> SuggestionView {
    SuggestionView {
        bait_category: b.category,
        rig: b.rig,
        variant: b.variant,
        colors: b.colors,
        retrieve: r.retrieve,
        confidence: confidence_of(r.weight as int),
        why: seq![r.why],
    }
}

/// Index of the first suggestion of category `cat`, or -1.
pub open spec fn find_category(acc: Seq<SuggestionView>, cat: Seq<char>) -> int
    decreases acc.len(),
{
    if acc.len() == 0 {
        -1
    } else {
        let k = find_category(acc.drop_last(), cat);
        if k >= 0 {
            k
        } else if acc.last().bait_category == cat {
            acc.len() - 1
        } else {
            -1
        }
    }
}

pub open spec fn with_why(s: SuggestionView, why: Seq<char>) -> SuggestionView {
    SuggestionView {
        bait_category: s.bait_category,
        rig: s.rig,
        variant: s.variant,
        colors: s.colors,
        retrieve: s.retrieve,
        confidence: s.confidence,
        why: s.why.push(why),
    }
}

/// Merges one bait of rule `r`: a category already suggested only gains the
/// rule's `why`; a new one is appended.
pub open spec fn merge_bait(acc: Seq<SuggestionView>, r: RuleView, b: BaitView) -> Seq<
    SuggestionView,
> {
    let k = find_category(acc, b.category);
    if k >= 0 {
        acc.update(k, with_why(acc[k], r.why))
    } else {
        acc.push(new_suggestion(r, b))
    }
}

pub open spec fn merge_rule_baits(acc: Seq<SuggestionView>, r: RuleView, n: int) -> Seq<
    SuggestionView,
>
    decreases n,
{
    if n <= 0 {
        acc
    } else {
        merge_bait(merge_rule_baits(acc, r, n - 1), r, r.baits[n - 1])
    }
}

/// All baits of the contributing rules merged, in rank order.
pub open spec fn merge_suggestions(rules: Seq<RuleView>) -> Seq<SuggestionView>
    decreases rules.len(),
{
    if rules.len() == 0 {
        Seq::empty()
    } else {
        merge_rule_baits(
            merge_suggestions(rules.drop_last()),
            rules.last(),
            rules.last().baits.len() as int,
        )
    }
}

/// Index of the first structure suggestion of `feature`, or -1.
pub open spec fn find_feature(acc: Seq<StructureView>, feature: Seq<char>) -> int
    decreases acc.len(),
{
    if acc.len() == 0 {
        -1
    } else {
        let k = find_feature(acc.drop_last(), feature);
        if k >= 0 {
            k
        } else if acc.last().feature == feature {
            acc.len() - 1
        } else {
            -1
        }
    }
}

pub open spec fn merge_feature(acc: Seq<StructureView>, r: RuleView, f: Seq<char>) -> Seq<
    StructureView,
> {
    let k = find_feature(acc, f);
    if k >= 0 {
        acc.update(k, StructureView { feature: acc[k].feature, why: acc[k].why.push(r.why) })
    } else {
        acc.push(StructureView { feature: f, why: seq![r.why] })
    }
}

pub open spec fn merge_rule_features(acc: Seq<StructureView>, r: RuleView, n: int) -> Seq<
    StructureView,
>
    decreases n,
{
    if n <= 0 {
        acc
    } else {
        merge_feature(merge_rule_features(acc, r, n - 1), r, r.target_structure[n - 1])
    }
}

/// All target structures of the contributing rules merged, in rank order.
pub open spec fn merge_structures(rules: Seq<RuleView>) -> Seq<StructureView>
    decreases rules.len(),
{
    if rules.len() == 0 {
        Seq::empty()
    } else {
        merge_rule_features(
            merge_structures(rules.drop_last()),
            rules.last(),
            rules.last().target_structure.len() as int,
        )
    }
}

// ---------------------------------------------------------------------------
// Executable pieces
// ---------------------------------------------------------------------------

fn confidence_for_weight(weight: u32) -> (r: Confidence)
    ensures
        r == confidence_of(weight as int),
{
    if weight >= 8 {
        Confidence::High
    } else if weight >= 4 {
        Confidence::Medium
    } else {
        Confidence::Low
    }
}

fn clone_strings(v: &Vec<String>) -> (r: Vec<String>)
    ensures
        string_views(r@) == string_views(v@),
{
    let mut out: Vec<String> = Vec::new();
    let mut i: usize = 0;
    while i < v.len()
        invariant
            i <= v@.len(),
            string_views(out@) =~= string_views(v@).take(i as int),
        decreases v.len() - i,
    {
        out.push(v[i].clone());
        proof {
            assert(string_views(v@).take(i as int + 1) =~= string_views(v@).take(i as int).push(
                v@[i as int]@,
            ));
        }
        i = i + 1;
    }
    proof {
        assert(string_views(v@).take(i as int) =~= string_views(v@));
    }
    out
}

fn clone_opt(o: &Option<String>) -> (r: Option<String>)
    ensures
        opt_view(r) == opt_view(*o),
{
    match o {
        Some(s) => Some(s.clone()),
        None => None,
    }
}

fn bytes_before_exec(a: &[u8], b: &[u8]) -> (r: bool)
    ensures
        r == bytes_before(a@, b@),
{
    let mut i: usize = 0;
    assert(a@.skip(0) =~= a@);
    assert(b@.skip(0) =~= b@);
    while i < a.len() && i < b.len()
        invariant
            i <= a@.len(),
            i <= b@.len(),
            bytes_before(a@, b@) == bytes_before(a@.skip(i as int), b@.skip(i as int)),
        decreases a.len() - i,
    {
        if a[i] < b[i] {
            return true;
        }
        if a[i] > b[i] {
            return false;
        }
        proof {
            assert(a@.skip(i as int).drop_first() =~= a@.skip(i as int + 1));
            assert(b@.skip(i as int).drop_first() =~= b@.skip(i as int + 1));
        }
        i = i + 1;
    }
    i == a.len() && i < b.len()
}

fn text_before_exec(a: &String, b: &String) -> (r: bool)
    ensures
        r == text_before(a@, b@),
{
    let ab = a.as_str().as_bytes();
    let bb = b.as_str().as_bytes();
    bytes_before_exec(ab, bb)
}

fn ranks_before_exec(a: &Rule, b: &Rule) -> (r: bool)
    ensures
        r == ranks_before(a@, b@),
{
    a.weight > b.weight || (a.weight == b.weight && text_before_exec(&a.id, &b.id))
}

fn rule_fires(rule: &Rule, tags: &TagSet) -> (r: bool)
    ensures
        r == fires(rule@, tags.tag_views()),
{
    let mut i: usize = 0;
    while i < rule.requires.len()
        invariant
            i <= rule.requires@.len(),
            forall|j: int| 0 <= j < i ==> tags.tag_views().contains(#[trigger] rule@.requires[j]),
        decreases rule.requires.len() - i,
    {
        if !tags.contains(&rule.requires[i]) {
            proof {
                assert(rule@.requires[i as int] == rule.requires@[i as int]@);
            }
            return false;
        }
        proof {
            assert(rule@.requires[i as int] == rule.requires@[i as int]@);
        }
        i = i + 1;
    }
    true
}

/// The rules at the given positions.
pub open spec fn rules_at(rules: Seq<RuleView>, idx: Seq<usize>) -> Seq<RuleView> {
    idx.map_values(|i: usize| rules[i as int])
}

proof fn lemma_insert_ranked_at(s: Seq<RuleView>, r: RuleView, p: int)
    requires
        0 <= p <= s.len(),
        forall|j: int| 0 <= j < p ==> !ranks_before(r, #[trigger] s[j]),
        p < s.len() ==> ranks_before(r, s[p]),
    ensures
        insert_ranked(s, r) == s.insert(p, r),
    decreases s.len(),
{
    if s.len() == 0 {
        assert(s.insert(p, r) =~= seq![r]);
    } else if p == 0 {
        assert(s.insert(p, r) =~= seq![r] + s);
    } else {
        assert forall|j: int| 0 <= j < p - 1 implies !ranks_before(r, #[trigger] s.drop_first()[j]) by {
            assert(s.drop_first()[j] == s[j + 1]);
        }
        lemma_insert_ranked_at(s.drop_first(), r, p - 1);
        assert(!ranks_before(r, s[0]));
        assert(seq![s[0]] + s.drop_first().insert(p - 1, r) =~= s.insert(p, r));
    }
}

pub struct RuleEngine {
    rules: Vec<Rule>,
}

impl View for RuleEngine {
    type V = Seq<RuleView>;

    closed spec fn view(&self) -> Seq<RuleView> {
        rule_views(self.rules@)
    }
}

impl RuleEngine {
    /// An engine over the given rules, in file order.
    pub fn new(rules: Vec<Rule>) -> (r: RuleEngine)
        ensures
            r@ == rule_views(rules@),
    {
        RuleEngine { rules }
    }

    /// An engine over the rules of a rules file.
    pub fn from_rule_file(file: RuleFile) -> (r: RuleEngine)
        ensures
            r@ == rule_views(file.rules@),
    {
        RuleEngine { rules: file.rules }
    }

    /// The loaded rules, in file order.
    pub fn rules(&self) -> (r: &[Rule])
        ensures
            rule_views(r@) == self@,
    {
        self.rules.as_slice()
    }

    /// Positions of the firing rules, in file order.
    fn matching_positions(&self, tags: &TagSet) -> (r: Vec<usize>)
        ensures
            rules_at(self@, r@) == matching(self@, tags.tag_views()),
            forall|j: int| 0 <= j < r@.len() ==> #[trigger] r@[j] < self@.len(),
    {
        let ghost views = self@;
        let mut out: Vec<usize> = Vec::new();
        let mut i: usize = 0;
        while i < self.rules.len()
            invariant
                i <= self.rules@.len(),
                views == rule_views(self.rules@),
                rules_at(views, out@) =~= matching(views.take(i as int), tags.tag_views()),
                forall|j: int| 0 <= j < out@.len() ==> #[trigger] out@[j] < i,
            decreases self.rules.len() - i,
        {
            proof {
                assert(views.take(i as int + 1).drop_last() =~= views.take(i as int));
                assert(views.take(i as int + 1).last() == self.rules@[i as int]@);
            }
            if rule_fires(&self.rules[i], tags) {
                out.push(i);
                proof {
                    assert(rules_at(views, out@) =~= rules_at(views, out@.drop_last()).push(
                        views[i as int],
                    ));
                }
            }
            i = i + 1;
        }
        proof {
            assert(views.take(i as int) =~= views);
        }
        out
    }

    /// Positions of the firing rules in rank order.
    fn ranked_positions(&self, tags: &TagSet) -> (r: Vec<usize>)
        ensures
            rules_at(self@, r@) == rank(matching(self@, tags.tag_views())),
            forall|j: int| 0 <= j < r@.len() ==> #[trigger] r@[j] < self@.len(),
    {
        let ghost views = self@;
        let matched = self.matching_positions(tags);
        let ghost m = rules_at(views, matched@);
        let mut ranked: Vec<usize> = Vec::new();
        let mut k: usize = 0;
        while k < matched.len()
            invariant
                k <= matched@.len(),
                views == rule_views(self.rules@),
                m == rules_at(views, matched@),
                forall|j: int| 0 <= j < matched@.len() ==> #[trigger] matched@[j] < views.len(),
                forall|j: int| 0 <= j < ranked@.len() ==> #[trigger] ranked@[j] < views.len(),
                rules_at(views, ranked@) == rank(m.take(k as int)),
            decreases matched.len() - k,
        {
            let cand = matched[k];
            let mut p: usize = 0;
            while p < ranked.len() && !ranks_before_exec(&self.rules[cand], &self.rules[ranked[p]])
                invariant
                    p <= ranked@.len(),
                    views == rule_views(self.rules@),
                    cand < views.len(),
                    forall|j: int| 0 <= j < ranked@.len() ==> #[trigger] ranked@[j] < views.len(),
                    forall|j: int|
                        0 <= j < p ==> !ranks_before(
                            views[cand as int],
                            #[trigger] rules_at(views, ranked@)[j],
                        ),
                decreases ranked.len() - p,
            {
                proof {
                    assert(rules_at(views, ranked@)[p as int] == views[ranked@[p as int] as int]);
                }
                p = p + 1;
            }
            proof {
                if p < ranked@.len() {
                    assert(rules_at(views, ranked@)[p as int] == views[ranked@[p as int] as int]);
                }
                lemma_insert_ranked_at(rules_at(views, ranked@), views[cand as int], p as int);
                assert(m.take(k as int + 1).drop_last() =~= m.take(k as int));
                assert(m.take(k as int + 1).last() == views[cand as int]);
            }
            let ghost before = ranked@;
            ranked.insert(p, cand);
            proof {
                assert(rules_at(views, ranked@) =~= rules_at(views, before).insert(
                    p as int,
                    views[cand as int],
                ));
                assert forall|j: int| 0 <= j < ranked@.len() implies #[trigger] ranked@[j] < views.len() by {
                    if j < p {
                        assert(ranked@[j] == before[j]);
                    } else if j > p {
                        assert(ranked@[j] == before[j - 1]);
                    }
                }
            }
            k = k + 1;
        }
        proof {
            assert(m.take(k as int) =~= m);
        }
        ranked
    }

    /// A rule fires iff every tag in its `requires` is present in `tags`.
    /// Firing rules are ranked by weight desc (ties broken by rule id, for
    /// determinism), truncated to `top_n`, then merged: a bait_category
    /// seen in more than one contributing rule keeps the highest-weight
    /// rule's colors/retrieve, with `why` concatenated across all
    /// contributors. Same merge logic applies to target_structure features.
    pub fn suggest(&self, tags: &TagSet, top_n: usize) -> (r: (
        Vec<Suggestion>,
        Vec<StructureSuggestion>,
    ))
        ensures
            suggestion_views(r.0@) == merge_suggestions(
                top_rules(self@, tags.tag_views(), top_n as int),
            ),
            structure_views(r.1@) == merge_structures(
                top_rules(self@, tags.tag_views(), top_n as int),
            ),
    {
        let ghost views = self@;
        let mut ranked = self.ranked_positions(tags);
        let ghost full = ranked@;
        ranked.truncate(top_n);
        let ghost top = rules_at(views, ranked@);
        proof {
            if (top_n as int) < full.len() {
                assert(top =~= rules_at(views, full).take(top_n as int));
            } else {
                assert(top =~= rules_at(views, full));
            }
            assert(top == top_rules(views, tags.tag_views(), top_n as int));
        }
        let suggestions = self.merge_baits_exec(&ranked, Ghost(top));
        let structures = self.merge_features_exec(&ranked, Ghost(top));
        (suggestions, structures)
    }

    fn merge_baits_exec(&self, ranked: &Vec<usize>, Ghost(top): Ghost<Seq<RuleView>>) -> (r: Vec<
        Suggestion,
    >)
        requires
            forall|j: int| 0 <= j < ranked@.len() ==> #[trigger] ranked@[j] < self@.len(),
            top == rules_at(self@, ranked@),
        ensures
            suggestion_views(r@) == merge_suggestions(top),
    {
        let ghost views = self@;
        let mut out: Vec<Suggestion> = Vec::new();
        let mut i: usize = 0;
        while i < ranked.len()
            invariant
                i <= ranked@.len(),
                views == rule_views(self.rules@),
                top == rules_at(views, ranked@),
                forall|j: int| 0 <= j < ranked@.len() ==> #[trigger] ranked@[j] < views.len(),
                suggestion_views(out@) == merge_suggestions(top.take(i as int)),
            decreases ranked.len() - i,
        {
            let rule = &self.rules[ranked[i]];
            let ghost rv = views[ranked@[i as int] as int];
            let ghost start = merge_suggestions(top.take(i as int));
            proof {
                assert(rv == rule@);
                assert(top.take(i as int + 1).drop_last() =~= top.take(i as int));
                assert(top.take(i as int + 1).last() == rv);
            }
            let confidence = confidence_for_weight(rule.weight);
            let mut b: usize = 0;
            while b < rule.baits.len()
                invariant
                    b <= rule.baits@.len(),
                    rv == rule@,
                    confidence == confidence_of(rule.weight as int),
                    suggestion_views(out@) == merge_rule_baits(start, rv, b as int),
                decreases rule.baits.len() - b,
            {
                let bait = &rule.baits[b];
                proof {
                    assert(rv.baits[b as int] == bait@);
                }
                let ghost acc = suggestion_views(out@);
                let mut k: usize = 0;
                while k < out.len()
                    invariant
                        k <= out@.len(),
                        acc == suggestion_views(out@),
                        forall|j: int| 0 <= j < k ==> #[trigger] acc[j].bait_category != bait@.category,
                    ensures
                        k <= out@.len(),
                        forall|j: int| 0 <= j < k ==> #[trigger] acc[j].bait_category != bait@.category,
                        k < out@.len() ==> acc[k as int].bait_category == bait@.category,
                    decreases out.len() - k,
                {
                    if out[k].bait_category == bait.category {
                        break;
                    }
                    k = k + 1;
                }
                let found: Option<usize> = if k < out.len() {
                    Some(k)
                } else {
                    None
                };
                proof {
                    lemma_find_category_first(acc, bait@.category, k as int, found is Some);
                }
                match found {
                    Some(k) => {
                        let mut existing = out.remove(k);
                        existing.why.push(rule.why.clone());
                        proof {
                            assert(string_views(existing.why@) =~= acc[k as int].why.push(rv.why));
                        }
                        let ghost removed = out@;
                        out.insert(k, existing);
                        proof {
                            assert(suggestion_views(out@) =~= acc.update(
                                k as int,
                                with_why(acc[k as int], rv.why),
                            ));
                        }
                    },
                    None => {
                        let s = Suggestion {
                            bait_category: bait.category.clone(),
                            rig: clone_opt(&bait.rig),
                            variant: clone_opt(&bait.variant),
                            colors: clone_strings(&bait.colors),
                            retrieve: rule.retrieve.clone(),
                            confidence,
                            why: vec![rule.why.clone()],
                        };
                        proof {
                            assert(string_views(s.why@) =~= seq![rv.why]);
                            assert(s@ == new_suggestion(rv, bait@));
                        }
                        out.push(s);
                        proof {
                            assert(suggestion_views(out@) =~= acc.push(new_suggestion(rv, bait@)));
                        }
                    },
                }
                b = b + 1;
            }
            i = i + 1;
        }
        proof {
            assert(top.take(i as int) =~= top);
        }
        out
    }

    fn merge_features_exec(&self, ranked: &Vec<usize>, Ghost(top): Ghost<Seq<RuleView>>) -> (r: Vec<
        StructureSuggestion,
    >)
        requires
            forall|j: int| 0 <= j < ranked@.len() ==> #[trigger] ranked@[j] < self@.len(),
            top == rules_at(self@, ranked@),
        ensures
            structure_views(r@) == merge_structures(top),
    {
        let ghost views = self@;
        let mut out: Vec<StructureSuggestion> = Vec::new();
        let mut i: usize = 0;
        while i < ranked.len()
            invariant
                i <= ranked@.len(),
                views == rule_views(self.rules@),
                top == rules_at(views, ranked@),
                forall|j: int| 0 <= j < ranked@.len() ==> #[trigger] ranked@[j] < views.len(),
                structure_views(out@) == merge_structures(top.take(i as int)),
            decreases ranked.len() - i,
        {
            let rule = &self.rules[ranked[i]];
            let ghost rv = views[ranked@[i as int] as int];
            let ghost start = merge_structures(top.take(i as int));
            proof {
                assert(rv == rule@);
                assert(top.take(i as int + 1).drop_last() =~= top.take(i as int));
                assert(top.take(i as int + 1).last() == rv);
            }
            let mut f: usize = 0;
            while f < rule.target_structure.len()
                invariant
                    f <= rule.target_structure@.len(),
                    rv == rule@,
                    structure_views(out@) == merge_rule_features(start, rv, f as int),
                decreases rule.target_structure.len() - f,
            {
                let feature = &rule.target_structure[f];
                proof {
                    assert(rv.target_structure[f as int] == feature@);
                }
                let ghost acc = structure_views(out@);
                let mut k: usize = 0;
                while k < out.len()
                    invariant
                        k <= out@.len(),
                        acc == structure_views(out@),
                        forall|j: int| 0 <= j < k ==> #[trigger] acc[j].feature != feature@,
                    ensures
                        k <= out@.len(),
                        forall|j: int| 0 <= j < k ==> #[trigger] acc[j].feature != feature@,
                        k < out@.len() ==> acc[k as int].feature == feature@,
                    decreases out.len() - k,
                {
                    if out[k].feature == *feature {
                        break;
                    }
                    k = k + 1;
                }
                let found: Option<usize> = if k < out.len() {
                    Some(k)
                } else {
                    None
                };
                proof {
                    lemma_find_feature_first(acc, feature@, k as int, found is Some);
                }
                match found {
                    Some(k) => {
                        let mut existing = out.remove(k);
                        existing.why.push(rule.why.clone());
                        proof {
                            assert(string_views(existing.why@) =~= acc[k as int].why.push(rv.why));
                        }
                        out.insert(k, existing);
                        proof {
                            assert(structure_views(out@) =~= acc.update(
                                k as int,
                                StructureView {
                                    feature: acc[k as int].feature,
                                    why: acc[k as int].why.push(rv.why),
                                },
                            ));
                        }
                    },
                    None => {
                        let s = StructureSuggestion {
                            feature: feature.clone(),
                            why: vec![rule.why.clone()],
                        };
                        proof {
                            assert(string_views(s.why@) =~= seq![rv.why]);
                        }
                        out.push(s);
                        proof {
                            assert(structure_views(out@) =~= acc.push(
                                StructureView { feature: feature@, why: seq![rv.why] },
                            ));
                        }
                    },
                }
                f = f + 1;
            }
            i = i + 1;
        }
        proof {
            assert(top.take(i as int) =~= top);
        }
        out
    }
}

proof fn lemma_find_category_first(acc: Seq<SuggestionView>, cat: Seq<char>, k: int, hit: bool)
    requires
        0 <= k <= acc.len(),
        forall|j: int| 0 <= j < k ==> #[trigger] acc[j].bait_category != cat,
        hit ==> k < acc.len() && acc[k].bait_category == cat,
        !hit ==> k == acc.len(),
    ensures
        find_category(acc, cat) == if hit {
            k
        } else {
            -1
        },
    decreases acc.len(),
{
    if acc.len() > 0 {
        if hit && k == acc.len() - 1 {
            lemma_find_category_first(acc.drop_last(), cat, k, false);
        } else if hit {
            lemma_find_category_first(acc.drop_last(), cat, k, true);
        } else {
            lemma_find_category_first(acc.drop_last(), cat, k - 1, false);
        }
    }
}

proof fn lemma_find_feature_first(acc: Seq<StructureView>, feature: Seq<char>, k: int, hit: bool)
    requires
        0 <= k <= acc.len(),
        forall|j: int| 0 <= j < k ==> #[trigger] acc[j].feature != feature,
        hit ==> k < acc.len() && acc[k].feature == feature,
        !hit ==> k == acc.len(),
    ensures
        find_feature(acc, feature) == if hit {
            k
        } else {
            -1
        },
    decreases acc.len(),
{
    if acc.len() > 0 {
        if hit && k == acc.len() - 1 {
            lemma_find_feature_first(acc.drop_last(), feature, k, false);
        } else if hit {
            lemma_find_feature_first(acc.drop_last(), feature, k, true);
        } else {
            lemma_find_feature_first(acc.drop_last(), feature, k - 1, false);
        }
    }
}

// ---------------------------------------------------------------------------
// Laws of ranking
// ---------------------------------------------------------------------------

proof fn lemma_bytes_before_asymmetric(a: Seq<u8>, b: Seq<u8>)
    requires
        bytes_before(a, b),
    ensures
        !bytes_before(b, a),
    decreases a.len(),
{
    if a.len() > 0 && b.len() > 0 && a[0] == b[0] {
        lemma_bytes_before_asymmetric(a.drop_first(), b.drop_first());
    }
}

proof fn lemma_bytes_before_transitive(a: Seq<u8>, b: Seq<u8>, c: Seq<u8>)
    requires
        bytes_before(a, b),
        bytes_before(b, c),
    ensures
        bytes_before(a, c),
    decreases a.len(),
{
    if a.len() > 0 && b.len() > 0 && c.len() > 0 && a[0] == b[0] && b[0] == c[0] {
        lemma_bytes_before_transitive(a.drop_first(), b.drop_first(), c.drop_first());
    }
}

proof fn lemma_ranks_before_asymmetric(a: RuleView, b: RuleView)
    requires
        ranks_before(a, b),
    ensures
        !ranks_before(b, a),
{
    if a.weight == b.weight {
        lemma_bytes_before_asymmetric(encode_utf8(a.id), encode_utf8(b.id));
    }
}

proof fn lemma_ranks_before_transitive(a: RuleView, b: RuleView, c: RuleView)
    requires
        ranks_before(a, b),
        ranks_before(b, c),
    ensures
        ranks_before(a, c),
{
    if a.weight == b.weight && b.weight == c.weight {
        lemma_bytes_before_transitive(encode_utf8(a.id), encode_utf8(b.id), encode_utf8(c.id));
    }
}

/// `s` is in rank order: no rule ranks strictly before one ahead of it.
pub open spec fn in_rank_order(s: Seq<RuleView>) -> bool {
    forall|i: int, j: int| 0 <= i < j < s.len() ==> !ranks_before(#[trigger] s[j], #[trigger] s[i])
}

/// Where `insert_ranked` puts the new rule: after every rule it does not
/// rank strictly before.
proof fn lemma_insert_ranked_position(s: Seq<RuleView>, r: RuleView) -> (p: int)
    ensures
        0 <= p <= s.len(),
        insert_ranked(s, r) == s.insert(p, r),
        forall|j: int| 0 <= j < p ==> !ranks_before(r, #[trigger] s[j]),
        p < s.len() ==> ranks_before(r, s[p]),
    decreases s.len(),
{
    if s.len() == 0 {
        assert(s.insert(0, r) =~= seq![r]);
        0
    } else if ranks_before(r, s[0]) {
        assert(s.insert(0, r) =~= seq![r] + s);
        0
    } else {
        let q = lemma_insert_ranked_position(s.drop_first(), r);
        assert(seq![s[0]] + s.drop_first().insert(q, r) =~= s.insert(q + 1, r));
        assert forall|j: int| 0 <= j < q + 1 implies !ranks_before(r, #[trigger] s[j]) by {
            if j > 0 {
                assert(s[j] == s.drop_first()[j - 1]);
            }
        }
        if q < s.drop_first().len() {
            assert(s[q + 1] == s.drop_first()[q]);
        }
        q + 1
    }
}

/// Ranking puts the rules in rank order: weight descending, then id
/// ascending.
pub proof fn rank_is_ordered(s: Seq<RuleView>)
    ensures
        in_rank_order(rank(s)),
    decreases s.len(),
{
    if s.len() > 0 {
        let t = rank(s.drop_last());
        rank_is_ordered(s.drop_last());
        let r = s.last();
        let p = lemma_insert_ranked_position(t, r);
        let u = t.insert(p, r);
        assert forall|i: int, j: int| 0 <= i < j < u.len() implies !ranks_before(#[trigger] u[j], #[trigger] u[i]) by {
            if j < p {
                assert(u[i] == t[i] && u[j] == t[j]);
            } else if j == p {
                assert(u[i] == t[i]);
            } else if i < p {
                assert(u[i] == t[i] && u[j] == t[j - 1]);
            } else if i == p {
                assert(u[j] == t[j - 1]);
                if ranks_before(t[j - 1], r) {
                    if j - 1 == p {
                        lemma_ranks_before_asymmetric(r, t[p]);
                    } else {
                        lemma_ranks_before_transitive(t[j - 1], r, t[p]);
                    }
                }
            } else {
                assert(u[i] == t[i - 1] && u[j] == t[j - 1]);
            }
        }
    }
}

/// Ranking neither drops nor adds a rule.
pub proof fn rank_is_permutation(s: Seq<RuleView>)
    ensures
        rank(s).to_multiset() == s.to_multiset(),
    decreases s.len(),
{
    broadcast use vstd::seq_lib::group_to_multiset_ensures;

    if s.len() > 0 {
        rank_is_permutation(s.drop_last());
        let p = lemma_insert_ranked_position(rank(s.drop_last()), s.last());
        assert(s.drop_last().push(s.last()) =~= s);
    }
}

/// The firing rules are exactly the rules, in order, whose requirements the
/// tags meet.
pub proof fn matching_keeps_exactly_the_firing_rules(rules: Seq<RuleView>, tags: Set<Seq<char>>)
    ensures
        forall|r: RuleView| #[trigger] matching(rules, tags).contains(r) <==> rules.contains(r) && fires(r, tags),
    decreases rules.len(),
{
    if rules.len() > 0 {
        matching_keeps_exactly_the_firing_rules(rules.drop_last(), tags);
        let m = matching(rules.drop_last(), tags);
        let d = rules.drop_last();
        let last = rules.last();
        assert(rules =~= d.push(last));
        if fires(last, tags) {
            assert(matching(rules, tags) == m.push(last));
        } else {
            assert(matching(rules, tags) == m);
        }
        assert forall|r: RuleView| #[trigger] matching(rules, tags).contains(r) <==> rules.contains(r) && fires(r, tags) by {
            if rules.contains(r) && fires(r, tags) {
                let i = choose|i: int| 0 <= i < rules.len() && rules[i] == r;
                if i < rules.len() - 1 {
                    assert(d[i] == r);
                    assert(d.contains(r));
                    assert(m.contains(r));
                    let k = choose|k: int| 0 <= k < m.len() && m[k] == r;
                    if fires(last, tags) {
                        assert(m.push(last)[k] == r);
                    }
                } else {
                    assert(r == last);
                    assert(m.push(last)[m.len() as int] == r);
                }
            }
            if matching(rules, tags).contains(r) {
                let mm = matching(rules, tags);
                let k = choose|k: int| 0 <= k < mm.len() && mm[k] == r;
                if k < m.len() {
                    assert(mm[k] == m[k]);
                    assert(m.contains(r));
                    let i = choose|i: int| 0 <= i < d.len() && d[i] == r;
                    assert(rules[i] == r);
                } else {
                    assert(r == last);
                    assert(rules[rules.len() - 1] == r);
                }
            }
        }
    }
}

/// The contributing rules all fire, come in rank order, and are the
/// highest-ranked of the firing rules.
pub proof fn contributing_rules_fire_in_rank_order(rules: Seq<RuleView>, tags: Set<Seq<char>>, top_n: int)
    requires
        top_n >= 0,
    ensures
        forall|i: int|
            0 <= i < top_rules(rules, tags, top_n).len() ==> fires(
                #[trigger] top_rules(rules, tags, top_n)[i],
                tags,
            ),
        in_rank_order(top_rules(rules, tags, top_n)),
        top_rules(rules, tags, top_n) == rank(matching(rules, tags)).take(
            top_rules(rules, tags, top_n).len() as int,
        ),
{
    let m = matching(rules, tags);
    let ranked = rank(m);
    let top = top_rules(rules, tags, top_n);
    rank_is_ordered(m);
    rank_is_permutation(m);
    matching_keeps_exactly_the_firing_rules(rules, tags);
    assert forall|i: int| 0 <= i < top.len() implies fires(#[trigger] top[i], tags) by {
        assert(top[i] == ranked[i]);
        assert(ranked.to_multiset().count(ranked[i]) > 0) by {
            broadcast use vstd::seq_lib::group_to_multiset_ensures;
            assert(ranked.contains(ranked[i]));
        }
        assert(m.contains(ranked[i])) by {
            broadcast use vstd::seq_lib::group_to_multiset_ensures;
        }
    }
    assert forall|i: int, j: int| 0 <= i < j < top.len() implies !ranks_before(#[trigger] top[j], #[trigger] top[i]) by {
        assert(top[i] == ranked[i] && top[j] == ranked[j]);
    }
    if top_n >= ranked.len() {
        assert(ranked.take(ranked.len() as int) =~= ranked);
    }
}


// ---------------------------------------------------------------------------
// What the bait merge keeps
// ---------------------------------------------------------------------------

/// Every (rule, bait) pair of the rules, rule by rule, each rule's baits in
/// its own order.
pub open spec fn bait_pairs(rules: Seq<RuleView>) -> Seq<(RuleView, BaitView)>
    decreases rules.len(),
{
    if rules.len() == 0 {
        Seq::empty()
    } else {
        bait_pairs(rules.drop_last()) + rules.last().baits.map_values(
            |b: BaitView| (rules.last(), b),
        )
    }
}

/// Merges the pairs one after another onto `acc`.
pub open spec fn merge_pairs(acc: Seq<SuggestionView>, ps: Seq<(RuleView, BaitView)>) -> Seq<
    SuggestionView,
>
    decreases ps.len(),
{
    if ps.len() == 0 {
        acc
    } else {
        merge_bait(merge_pairs(acc, ps.drop_last()), ps.last().0, ps.last().1)
    }
}

/// Position of the first pair whose bait has category `cat`, or -1.
pub open spec fn first_pair(ps: Seq<(RuleView, BaitView)>, cat: Seq<char>) -> int
    decreases ps.len(),
{
    if ps.len() == 0 {
        -1
    } else {
        let f = first_pair(ps.drop_last(), cat);
        if f >= 0 {
            f
        } else if ps.last().1.category == cat {
            ps.len() - 1
        } else {
            -1
        }
    }
}

/// The `why` of every pair whose bait has category `cat`, in order.
pub open spec fn whys_for(ps: Seq<(RuleView, BaitView)>, cat: Seq<char>) -> Seq<Seq<char>>
    decreases ps.len(),
{
    if ps.len() == 0 {
        Seq::empty()
    } else {
        let w = whys_for(ps.drop_last(), cat);
        if ps.last().1.category == cat {
            w.push(ps.last().0.why)
        } else {
            w
        }
    }
}

/// The suggestion for category `cat`: everything but `why` from the first
/// pair of that category, `why` from all of them.
pub open spec fn merged_entry(ps: Seq<(RuleView, BaitView)>, cat: Seq<char>) -> SuggestionView {
    let first = ps[first_pair(ps, cat)];
    SuggestionView {
        bait_category: first.1.category,
        rig: first.1.rig,
        variant: first.1.variant,
        colors: first.1.colors,
        retrieve: first.0.retrieve,
        confidence: confidence_of(first.0.weight as int),
        why: whys_for(ps, cat),
    }
}

proof fn lemma_find_category(acc: Seq<SuggestionView>, cat: Seq<char>)
    ensures
        find_category(acc, cat) >= 0 ==> find_category(acc, cat) < acc.len()
            && acc[find_category(acc, cat)].bait_category == cat,
        find_category(acc, cat) < 0 ==> forall|i: int|
            0 <= i < acc.len() ==> #[trigger] acc[i].bait_category != cat,
        find_category(acc, cat) >= -1,
    decreases acc.len(),
{
    if acc.len() > 0 {
        lemma_find_category(acc.drop_last(), cat);
        let k = find_category(acc.drop_last(), cat);
        if k >= 0 {
            assert(acc[k] == acc.drop_last()[k]);
        }
        if find_category(acc, cat) < 0 {
            assert forall|i: int| 0 <= i < acc.len() implies #[trigger] acc[i].bait_category
                != cat by {
                if i < acc.len() - 1 {
                    assert(acc[i] == acc.drop_last()[i]);
                }
            }
        }
    }
}

proof fn lemma_first_pair(ps: Seq<(RuleView, BaitView)>, cat: Seq<char>)
    ensures
        first_pair(ps, cat) >= 0 ==> first_pair(ps, cat) < ps.len() && ps[first_pair(
            ps,
            cat,
        )].1.category == cat,
        first_pair(ps, cat) < 0 ==> first_pair(ps, cat) == -1 && whys_for(ps, cat).len() == 0
            && forall|i: int| 0 <= i < ps.len() ==> #[trigger] ps[i].1.category != cat,
    decreases ps.len(),
{
    if ps.len() > 0 {
        lemma_first_pair(ps.drop_last(), cat);
        let f = first_pair(ps.drop_last(), cat);
        if f >= 0 {
            assert(ps[f] == ps.drop_last()[f]);
        }
        if first_pair(ps, cat) < 0 {
            assert forall|i: int| 0 <= i < ps.len() implies #[trigger] ps[i].1.category != cat by {
                if i < ps.len() - 1 {
                    assert(ps[i] == ps.drop_last()[i]);
                }
            }
        }
    }
}

/// No category is suggested twice.
pub open spec fn distinct_categories(m: Seq<SuggestionView>) -> bool {
    forall|i: int, j: int|
        0 <= i < j < m.len() ==> #[trigger] m[i].bait_category != #[trigger] m[j].bait_category
}

/// Each suggestion is the merged entry of its category, a category some
/// pair offers.
pub open spec fn entries_merged(m: Seq<SuggestionView>, ps: Seq<(RuleView, BaitView)>) -> bool {
    forall|k: int|
        0 <= k < m.len() ==> first_pair(ps, #[trigger] m[k].bait_category) >= 0 && m[k]
            == merged_entry(ps, m[k].bait_category)
}

/// Every category some pair offers is suggested.
pub open spec fn covers_pairs(m: Seq<SuggestionView>, ps: Seq<(RuleView, BaitView)>) -> bool {
    forall|i: int|
        0 <= i < ps.len() ==> exists|k: int|
            0 <= k < m.len() && #[trigger] m[k].bait_category == #[trigger] ps[i].1.category
}

/// Suggestions come in the order their categories first come up.
pub open spec fn in_first_seen_order(m: Seq<SuggestionView>, ps: Seq<(RuleView, BaitView)>) -> bool {
    forall|i: int, j: int|
        0 <= i < j < m.len() ==> first_pair(ps, #[trigger] m[i].bait_category) < first_pair(
            ps,
            #[trigger] m[j].bait_category,
        )
}

/// What `merge_pairs(empty, ps)` is, stated without the merge itself.
pub open spec fn merged_from_pairs(m: Seq<SuggestionView>, ps: Seq<(RuleView, BaitView)>) -> bool {
    &&& distinct_categories(m)
    &&& entries_merged(m, ps)
    &&& covers_pairs(m, ps)
    &&& in_first_seen_order(m, ps)
}

proof fn lemma_pairs_push(q: Seq<(RuleView, BaitView)>, x: (RuleView, BaitView))
    ensures
        forall|c: Seq<char>|
            #[trigger] first_pair(q.push(x), c) == (if first_pair(q, c) >= 0 {
                first_pair(q, c)
            } else if x.1.category == c {
                q.len() as int
            } else {
                -1
            }),
        forall|c: Seq<char>|
            #[trigger] whys_for(q.push(x), c) == (if x.1.category == c {
                whys_for(q, c).push(x.0.why)
            } else {
                whys_for(q, c)
            }),
        forall|i: int| 0 <= i < q.len() ==> #[trigger] q.push(x)[i] == q[i],
        merge_pairs(Seq::empty(), q.push(x)) == merge_bait(merge_pairs(Seq::empty(), q), x.0, x.1),
{
    assert(q.push(x).drop_last() == q);
}

/// A category that the earlier pairs already offer keeps its merged entry,
/// with one more `why` when the new pair is of that category.
proof fn lemma_entry_after_push(q: Seq<(RuleView, BaitView)>, x: (RuleView, BaitView), c: Seq<char>)
    requires
        first_pair(q, c) >= 0,
    ensures
        first_pair(q.push(x), c) == first_pair(q, c),
        merged_entry(q.push(x), c) == (if x.1.category == c {
            with_why(merged_entry(q, c), x.0.why)
        } else {
            merged_entry(q, c)
        }),
{
    lemma_pairs_push(q, x);
    lemma_first_pair(q, c);
    let f = first_pair(q, c);
    assert(q.push(x)[f] == q[f]);
}

#[verifier::spinoff_prover]
proof fn lemma_merge_step_existing(q: Seq<(RuleView, BaitView)>, r: RuleView, b: BaitView)
    requires
        merged_from_pairs(merge_pairs(Seq::empty(), q), q),
        find_category(merge_pairs(Seq::empty(), q), b.category) >= 0,
    ensures
        merged_from_pairs(merge_pairs(Seq::empty(), q.push((r, b))), q.push((r, b))),
{
    let ps = q.push((r, b));
    let c0 = b.category;
    let prev = merge_pairs(Seq::empty(), q);
    let m = merge_pairs(Seq::empty(), ps);
    lemma_pairs_push(q, (r, b));
    lemma_find_category(prev, c0);
    let k = find_category(prev, c0);
    assert(m == prev.update(k, with_why(prev[k], r.why)));
    assert forall|kk: int| 0 <= kk < m.len() implies #[trigger] m[kk].bait_category
        == prev[kk].bait_category by {}
    assert(entries_merged(m, ps)) by {
        assert forall|kk: int| 0 <= kk < m.len() implies first_pair(
            ps,
            #[trigger] m[kk].bait_category,
        ) >= 0 && m[kk] == merged_entry(ps, m[kk].bait_category) by {
            let c = prev[kk].bait_category;
            assert(first_pair(q, c) >= 0 && prev[kk] == merged_entry(q, c));
            lemma_entry_after_push(q, (r, b), c);
        }
    }
    assert(covers_pairs(m, ps)) by {
        assert forall|i: int| 0 <= i < ps.len() implies exists|kk: int|
            0 <= kk < m.len() && #[trigger] m[kk].bait_category == #[trigger] ps[i].1.category by {
            if i < q.len() {
                let kk = choose|kk: int|
                    0 <= kk < prev.len() && #[trigger] prev[kk].bait_category == #[trigger] q[i].1.category;
                assert(m[kk].bait_category == ps[i].1.category);
            } else {
                assert(m[k].bait_category == ps[i].1.category);
            }
        }
    }
    assert(distinct_categories(m)) by {
        assert forall|i: int, j: int| 0 <= i < j < m.len() implies #[trigger] m[i].bait_category
            != #[trigger] m[j].bait_category by {
            assert(prev[i].bait_category != prev[j].bait_category);
        }
    }
    assert(in_first_seen_order(m, ps)) by {
        assert forall|i: int, j: int| 0 <= i < j < m.len() implies first_pair(
            ps,
            #[trigger] m[i].bait_category,
        ) < first_pair(ps, #[trigger] m[j].bait_category) by {
            let ci = prev[i].bait_category;
            let cj = prev[j].bait_category;
            assert(first_pair(q, ci) >= 0 && first_pair(q, cj) >= 0);
            assert(first_pair(q, ci) < first_pair(q, cj));
        }
    }
}

#[verifier::spinoff_prover]
proof fn lemma_merge_step_new(q: Seq<(RuleView, BaitView)>, r: RuleView, b: BaitView)
    requires
        merged_from_pairs(merge_pairs(Seq::empty(), q), q),
        find_category(merge_pairs(Seq::empty(), q), b.category) < 0,
    ensures
        merged_from_pairs(merge_pairs(Seq::empty(), q.push((r, b))), q.push((r, b))),
{
    let ps = q.push((r, b));
    let c0 = b.category;
    let prev = merge_pairs(Seq::empty(), q);
    let m = merge_pairs(Seq::empty(), ps);
    lemma_pairs_push(q, (r, b));
    lemma_find_category(prev, c0);
    lemma_first_pair(q, c0);
    assert(m == prev.push(new_suggestion(r, b)));
    assert(first_pair(q, c0) < 0) by {
        if first_pair(q, c0) >= 0 {
            let f = first_pair(q, c0);
            let kk = choose|kk: int|
                0 <= kk < prev.len() && #[trigger] prev[kk].bait_category == #[trigger] q[f].1.category;
            assert(prev[kk].bait_category == c0);
        }
    }
    assert(first_pair(ps, c0) == q.len());
    assert(ps[q.len() as int] == (r, b));
    assert(whys_for(ps, c0) =~= seq![r.why]);
    assert forall|kk: int| 0 <= kk < prev.len() implies #[trigger] m[kk] == prev[kk] by {}
    assert(entries_merged(m, ps)) by {
        assert forall|kk: int| 0 <= kk < m.len() implies first_pair(
            ps,
            #[trigger] m[kk].bait_category,
        ) >= 0 && m[kk] == merged_entry(ps, m[kk].bait_category) by {
            if kk < prev.len() {
                let c = prev[kk].bait_category;
                assert(first_pair(q, c) >= 0 && prev[kk] == merged_entry(q, c));
                assert(c != c0);
                lemma_entry_after_push(q, (r, b), c);
            } else {
                assert(m[kk] == new_suggestion(r, b));
            }
        }
    }
    assert(covers_pairs(m, ps)) by {
        assert forall|i: int| 0 <= i < ps.len() implies exists|kk: int|
            0 <= kk < m.len() && #[trigger] m[kk].bait_category == #[trigger] ps[i].1.category by {
            if i < q.len() {
                let kk = choose|kk: int|
                    0 <= kk < prev.len() && #[trigger] prev[kk].bait_category == #[trigger] q[i].1.category;
                assert(m[kk].bait_category == ps[i].1.category);
            } else {
                assert(m[prev.len() as int].bait_category == ps[i].1.category);
            }
        }
    }
    assert(distinct_categories(m)) by {
        assert forall|i: int, j: int| 0 <= i < j < m.len() implies #[trigger] m[i].bait_category
            != #[trigger] m[j].bait_category by {
            assert(m[i] == prev[i]);
            if j < prev.len() {
                assert(m[j] == prev[j]);
                assert(prev[i].bait_category != prev[j].bait_category);
            }
        }
    }
    assert(in_first_seen_order(m, ps)) by {
        assert forall|i: int, j: int| 0 <= i < j < m.len() implies first_pair(
            ps,
            #[trigger] m[i].bait_category,
        ) < first_pair(ps, #[trigger] m[j].bait_category) by {
            let ci = prev[i].bait_category;
            assert(m[i] == prev[i]);
            assert(first_pair(q, ci) >= 0);
            lemma_first_pair(q, ci);
            if j < prev.len() {
                assert(m[j] == prev[j]);
                assert(first_pair(q, ci) < first_pair(q, prev[j].bait_category));
            }
        }
    }
}

proof fn lemma_merge_pairs(ps: Seq<(RuleView, BaitView)>)
    ensures
        merged_from_pairs(merge_pairs(Seq::empty(), ps), ps),
    decreases ps.len(),
{
    if ps.len() > 0 {
        let q = ps.drop_last();
        let (r, b) = ps.last();
        lemma_merge_pairs(q);
        assert(ps == q.push((r, b)));
        if find_category(merge_pairs(Seq::empty(), q), b.category) >= 0 {
            lemma_merge_step_existing(q, r, b);
        } else {
            lemma_merge_step_new(q, r, b);
        }
    }
}

proof fn lemma_merge_pairs_append(
    acc: Seq<SuggestionView>,
    ps: Seq<(RuleView, BaitView)>,
    qs: Seq<(RuleView, BaitView)>,
)
    ensures
        merge_pairs(acc, ps + qs) == merge_pairs(merge_pairs(acc, ps), qs),
    decreases qs.len(),
{
    if qs.len() > 0 {
        lemma_merge_pairs_append(acc, ps, qs.drop_last());
        assert((ps + qs).drop_last() =~= ps + qs.drop_last());
        assert((ps + qs).last() == qs.last());
    }
}

proof fn lemma_merge_rule_baits(acc: Seq<SuggestionView>, r: RuleView, n: int)
    requires
        0 <= n <= r.baits.len(),
    ensures
        merge_rule_baits(acc, r, n) == merge_pairs(
            acc,
            r.baits.map_values(|b: BaitView| (r, b)).take(n),
        ),
    decreases n,
{
    if n > 0 {
        lemma_merge_rule_baits(acc, r, n - 1);
        let all = r.baits.map_values(|b: BaitView| (r, b));
        assert(all.take(n).drop_last() =~= all.take(n - 1));
    }
}

proof fn lemma_merge_suggestions_is_pairwise(rules: Seq<RuleView>)
    ensures
        merge_suggestions(rules) == merge_pairs(Seq::empty(), bait_pairs(rules)),
    decreases rules.len(),
{
    if rules.len() > 0 {
        let r = rules.last();
        let own = r.baits.map_values(|b: BaitView| (r, b));
        lemma_merge_suggestions_is_pairwise(rules.drop_last());
        lemma_merge_rule_baits(merge_suggestions(rules.drop_last()), r, r.baits.len() as int);
        assert(own.take(r.baits.len() as int) =~= own);
        lemma_merge_pairs_append(Seq::empty(), bait_pairs(rules.drop_last()), own);
    }
}

/// The bait merge: each bait category of the contributing rules is
/// suggested exactly once, in the order the categories first come up; its
/// rig, variant, colors, retrieve and confidence come from the first
/// (highest-ranked) rule that offers it, and its `why` lists the `why` of
/// every contributing bait of that category, in order.
pub proof fn merged_suggestions_keep_first_contributor(rules: Seq<RuleView>)
    ensures
        merged_from_pairs(merge_suggestions(rules), bait_pairs(rules)),
{
    lemma_merge_suggestions_is_pairwise(rules);
    lemma_merge_pairs(bait_pairs(rules));
}

// ---------------------------------------------------------------------------
// What the structure merge keeps
// ---------------------------------------------------------------------------

/// Every (rule, feature) pair of the rules, rule by rule, each rule's target
/// structures in its own order.
pub open spec fn feature_pairs(rules: Seq<RuleView>) -> Seq<(RuleView, Seq<char>)>
    decreases rules.len(),
{
    if rules.len() == 0 {
        Seq::empty()
    } else {
        feature_pairs(rules.drop_last()) + rules.last().target_structure.map_values(
            |f: Seq<char>| (rules.last(), f),
        )
    }
}

/// Merges the pairs one after another onto `acc`.
pub open spec fn merge_feature_pairs(acc: Seq<StructureView>, ps: Seq<(RuleView, Seq<char>)>) -> Seq<
    StructureView,
>
    decreases ps.len(),
{
    if ps.len() == 0 {
        acc
    } else {
        merge_feature(merge_feature_pairs(acc, ps.drop_last()), ps.last().0, ps.last().1)
    }
}

/// Position of the first pair naming `cat`, or -1.
pub open spec fn first_feature_pair(ps: Seq<(RuleView, Seq<char>)>, cat: Seq<char>) -> int
    decreases ps.len(),
{
    if ps.len() == 0 {
        -1
    } else {
        let f = first_feature_pair(ps.drop_last(), cat);
        if f >= 0 {
            f
        } else if ps.last().1 == cat {
            ps.len() - 1
        } else {
            -1
        }
    }
}

/// The `why` of every pair naming `cat`, in order.
pub open spec fn feature_whys(ps: Seq<(RuleView, Seq<char>)>, cat: Seq<char>) -> Seq<Seq<char>>
    decreases ps.len(),
{
    if ps.len() == 0 {
        Seq::empty()
    } else {
        let w = feature_whys(ps.drop_last(), cat);
        if ps.last().1 == cat {
            w.push(ps.last().0.why)
        } else {
            w
        }
    }
}

/// The structure suggestion for `feature`: the `why` of every pair that
/// names it.
pub open spec fn merged_feature_entry(ps: Seq<(RuleView, Seq<char>)>, feature: Seq<char>) -> StructureView {
    StructureView { feature: ps[first_feature_pair(ps, feature)].1, why: feature_whys(ps, feature) }
}

proof fn lemma_find_feature(acc: Seq<StructureView>, cat: Seq<char>)
    ensures
        find_feature(acc, cat) >= 0 ==> find_feature(acc, cat) < acc.len()
            && acc[find_feature(acc, cat)].feature == cat,
        find_feature(acc, cat) < 0 ==> forall|i: int|
            0 <= i < acc.len() ==> #[trigger] acc[i].feature != cat,
        find_feature(acc, cat) >= -1,
    decreases acc.len(),
{
    if acc.len() > 0 {
        lemma_find_feature(acc.drop_last(), cat);
        let k = find_feature(acc.drop_last(), cat);
        if k >= 0 {
            assert(acc[k] == acc.drop_last()[k]);
        }
        if find_feature(acc, cat) < 0 {
            assert forall|i: int| 0 <= i < acc.len() implies #[trigger] acc[i].feature
                != cat by {
                if i < acc.len() - 1 {
                    assert(acc[i] == acc.drop_last()[i]);
                }
            }
        }
    }
}

proof fn lemma_first_feature_pair(ps: Seq<(RuleView, Seq<char>)>, cat: Seq<char>)
    ensures
        first_feature_pair(ps, cat) >= 0 ==> first_feature_pair(ps, cat) < ps.len() && ps[first_feature_pair(
            ps,
            cat,
        )].1 == cat,
        first_feature_pair(ps, cat) < 0 ==> first_feature_pair(ps, cat) == -1 && feature_whys(ps, cat).len() == 0
            && forall|i: int| 0 <= i < ps.len() ==> #[trigger] ps[i].1 != cat,
    decreases ps.len(),
{
    if ps.len() > 0 {
        lemma_first_feature_pair(ps.drop_last(), cat);
        let f = first_feature_pair(ps.drop_last(), cat);
        if f >= 0 {
            assert(ps[f] == ps.drop_last()[f]);
        }
        if first_feature_pair(ps, cat) < 0 {
            assert forall|i: int| 0 <= i < ps.len() implies #[trigger] ps[i].1 != cat by {
                if i < ps.len() - 1 {
                    assert(ps[i] == ps.drop_last()[i]);
                }
            }
        }
    }
}

/// No feature is suggested twice.
pub open spec fn distinct_features(m: Seq<StructureView>) -> bool {
    forall|i: int, j: int|
        0 <= i < j < m.len() ==> #[trigger] m[i].feature != #[trigger] m[j].feature
}

/// Each structure suggestion is the merged entry of its feature, a feature
/// some pair names.
pub open spec fn features_merged(m: Seq<StructureView>, ps: Seq<(RuleView, Seq<char>)>) -> bool {
    forall|k: int|
        0 <= k < m.len() ==> first_feature_pair(ps, #[trigger] m[k].feature) >= 0 && m[k]
            == merged_feature_entry(ps, m[k].feature)
}

/// Every feature some pair names is suggested.
pub open spec fn covers_feature_pairs(m: Seq<StructureView>, ps: Seq<(RuleView, Seq<char>)>) -> bool {
    forall|i: int|
        0 <= i < ps.len() ==> exists|k: int|
            0 <= k < m.len() && #[trigger] m[k].feature == #[trigger] ps[i].1
}

/// Structure suggestions come in the order their features first come up.
pub open spec fn features_in_first_seen_order(m: Seq<StructureView>, ps: Seq<(RuleView, Seq<char>)>) -> bool {
    forall|i: int, j: int|
        0 <= i < j < m.len() ==> first_feature_pair(ps, #[trigger] m[i].feature) < first_feature_pair(
            ps,
            #[trigger] m[j].feature,
        )
}

/// What `merge_feature_pairs(empty, ps)` is, stated without the merge itself.
pub open spec fn merged_from_feature_pairs(m: Seq<StructureView>, ps: Seq<(RuleView, Seq<char>)>) -> bool {
    &&& distinct_features(m)
    &&& features_merged(m, ps)
    &&& covers_feature_pairs(m, ps)
    &&& features_in_first_seen_order(m, ps)
}

proof fn lemma_feature_pairs_push(q: Seq<(RuleView, Seq<char>)>, x: (RuleView, Seq<char>))
    ensures
        forall|c: Seq<char>|
            #[trigger] first_feature_pair(q.push(x), c) == (if first_feature_pair(q, c) >= 0 {
                first_feature_pair(q, c)
            } else if x.1 == c {
                q.len() as int
            } else {
                -1
            }),
        forall|c: Seq<char>|
            #[trigger] feature_whys(q.push(x), c) == (if x.1 == c {
                feature_whys(q, c).push(x.0.why)
            } else {
                feature_whys(q, c)
            }),
        forall|i: int| 0 <= i < q.len() ==> #[trigger] q.push(x)[i] == q[i],
        merge_feature_pairs(Seq::empty(), q.push(x)) == merge_feature(merge_feature_pairs(Seq::empty(), q), x.0, x.1),
{
    assert(q.push(x).drop_last() == q);
}

/// A feature that the earlier pairs already name keeps its merged entry,
/// with one more `why` when the new pair names it too.
proof fn lemma_feature_entry_after_push(q: Seq<(RuleView, Seq<char>)>, x: (RuleView, Seq<char>), c: Seq<char>)
    requires
        first_feature_pair(q, c) >= 0,
    ensures
        first_feature_pair(q.push(x), c) == first_feature_pair(q, c),
        merged_feature_entry(q.push(x), c) == (if x.1 == c {
            StructureView {
                feature: merged_feature_entry(q, c).feature,
                why: merged_feature_entry(q, c).why.push(x.0.why),
            }
        } else {
            merged_feature_entry(q, c)
        }),
{
    lemma_feature_pairs_push(q, x);
    lemma_first_feature_pair(q, c);
    let f = first_feature_pair(q, c);
    assert(q.push(x)[f] == q[f]);
}

#[verifier::spinoff_prover]
proof fn lemma_merge_feature_step_existing(q: Seq<(RuleView, Seq<char>)>, r: RuleView, f: Seq<char>)
    requires
        merged_from_feature_pairs(merge_feature_pairs(Seq::empty(), q), q),
        find_feature(merge_feature_pairs(Seq::empty(), q), f) >= 0,
    ensures
        merged_from_feature_pairs(merge_feature_pairs(Seq::empty(), q.push((r, f))), q.push((r, f))),
{
    let ps = q.push((r, f));
    let c0 = f;
    let prev = merge_feature_pairs(Seq::empty(), q);
    let m = merge_feature_pairs(Seq::empty(), ps);
    lemma_feature_pairs_push(q, (r, f));
    lemma_find_feature(prev, c0);
    let k = find_feature(prev, c0);
    assert(m == prev.update(
        k,
        StructureView { feature: prev[k].feature, why: prev[k].why.push(r.why) },
    ));
    assert forall|kk: int| 0 <= kk < m.len() implies #[trigger] m[kk].feature
        == prev[kk].feature by {}
    assert(features_merged(m, ps)) by {
        assert forall|kk: int| 0 <= kk < m.len() implies first_feature_pair(
            ps,
            #[trigger] m[kk].feature,
        ) >= 0 && m[kk] == merged_feature_entry(ps, m[kk].feature) by {
            let c = prev[kk].feature;
            assert(first_feature_pair(q, c) >= 0 && prev[kk] == merged_feature_entry(q, c));
            lemma_feature_entry_after_push(q, (r, f), c);
        }
    }
    assert(covers_feature_pairs(m, ps)) by {
        assert forall|i: int| 0 <= i < ps.len() implies exists|kk: int|
            0 <= kk < m.len() && #[trigger] m[kk].feature == #[trigger] ps[i].1 by {
            if i < q.len() {
                let kk = choose|kk: int|
                    0 <= kk < prev.len() && #[trigger] prev[kk].feature == #[trigger] q[i].1;
                assert(m[kk].feature == ps[i].1);
            } else {
                assert(m[k].feature == ps[i].1);
            }
        }
    }
    assert(distinct_features(m)) by {
        assert forall|i: int, j: int| 0 <= i < j < m.len() implies #[trigger] m[i].feature
            != #[trigger] m[j].feature by {
            assert(prev[i].feature != prev[j].feature);
        }
    }
    assert(features_in_first_seen_order(m, ps)) by {
        assert forall|i: int, j: int| 0 <= i < j < m.len() implies first_feature_pair(
            ps,
            #[trigger] m[i].feature,
        ) < first_feature_pair(ps, #[trigger] m[j].feature) by {
            let ci = prev[i].feature;
            let cj = prev[j].feature;
            assert(first_feature_pair(q, ci) >= 0 && first_feature_pair(q, cj) >= 0);
            assert(first_feature_pair(q, ci) < first_feature_pair(q, cj));
        }
    }
}

#[verifier::spinoff_prover]
proof fn lemma_merge_feature_step_new(q: Seq<(RuleView, Seq<char>)>, r: RuleView, f: Seq<char>)
    requires
        merged_from_feature_pairs(merge_feature_pairs(Seq::empty(), q), q),
        find_feature(merge_feature_pairs(Seq::empty(), q), f) < 0,
    ensures
        merged_from_feature_pairs(merge_feature_pairs(Seq::empty(), q.push((r, f))), q.push((r, f))),
{
    let ps = q.push((r, f));
    let c0 = f;
    let prev = merge_feature_pairs(Seq::empty(), q);
    let m = merge_feature_pairs(Seq::empty(), ps);
    lemma_feature_pairs_push(q, (r, f));
    lemma_find_feature(prev, c0);
    lemma_first_feature_pair(q, c0);
    assert(m == prev.push(StructureView { feature: f, why: seq![r.why] }));
    assert(first_feature_pair(q, c0) < 0) by {
        if first_feature_pair(q, c0) >= 0 {
            let f = first_feature_pair(q, c0);
            let kk = choose|kk: int|
                0 <= kk < prev.len() && #[trigger] prev[kk].feature == #[trigger] q[f].1;
            assert(prev[kk].feature == c0);
        }
    }
    assert(first_feature_pair(ps, c0) == q.len());
    assert(ps[q.len() as int] == (r, f));
    assert(feature_whys(ps, c0) =~= seq![r.why]);
    assert forall|kk: int| 0 <= kk < prev.len() implies #[trigger] m[kk] == prev[kk] by {}
    assert(features_merged(m, ps)) by {
        assert forall|kk: int| 0 <= kk < m.len() implies first_feature_pair(
            ps,
            #[trigger] m[kk].feature,
        ) >= 0 && m[kk] == merged_feature_entry(ps, m[kk].feature) by {
            if kk < prev.len() {
                let c = prev[kk].feature;
                assert(first_feature_pair(q, c) >= 0 && prev[kk] == merged_feature_entry(q, c));
                assert(c != c0);
                lemma_feature_entry_after_push(q, (r, f), c);
            } else {
                assert(m[kk] == StructureView { feature: f, why: seq![r.why] });
            }
        }
    }
    assert(covers_feature_pairs(m, ps)) by {
        assert forall|i: int| 0 <= i < ps.len() implies exists|kk: int|
            0 <= kk < m.len() && #[trigger] m[kk].feature == #[trigger] ps[i].1 by {
            if i < q.len() {
                let kk = choose|kk: int|
                    0 <= kk < prev.len() && #[trigger] prev[kk].feature == #[trigger] q[i].1;
                assert(m[kk].feature == ps[i].1);
            } else {
                assert(m[prev.len() as int].feature == ps[i].1);
            }
        }
    }
    assert(distinct_features(m)) by {
        assert forall|i: int, j: int| 0 <= i < j < m.len() implies #[trigger] m[i].feature
            != #[trigger] m[j].feature by {
            assert(m[i] == prev[i]);
            if j < prev.len() {
                assert(m[j] == prev[j]);
                assert(prev[i].feature != prev[j].feature);
            }
        }
    }
    assert(features_in_first_seen_order(m, ps)) by {
        assert forall|i: int, j: int| 0 <= i < j < m.len() implies first_feature_pair(
            ps,
            #[trigger] m[i].feature,
        ) < first_feature_pair(ps, #[trigger] m[j].feature) by {
            let ci = prev[i].feature;
            assert(m[i] == prev[i]);
            assert(first_feature_pair(q, ci) >= 0);
            lemma_first_feature_pair(q, ci);
            if j < prev.len() {
                assert(m[j] == prev[j]);
                assert(first_feature_pair(q, ci) < first_feature_pair(q, prev[j].feature));
            }
        }
    }
}

proof fn lemma_merge_feature_pairs(ps: Seq<(RuleView, Seq<char>)>)
    ensures
        merged_from_feature_pairs(merge_feature_pairs(Seq::empty(), ps), ps),
    decreases ps.len(),
{
    if ps.len() > 0 {
        let q = ps.drop_last();
        let (r, f) = ps.last();
        lemma_merge_feature_pairs(q);
        assert(ps == q.push((r, f)));
        if find_feature(merge_feature_pairs(Seq::empty(), q), f) >= 0 {
            lemma_merge_feature_step_existing(q, r, f);
        } else {
            lemma_merge_feature_step_new(q, r, f);
        }
    }
}

proof fn lemma_merge_feature_pairs_append(
    acc: Seq<StructureView>,
    ps: Seq<(RuleView, Seq<char>)>,
    qs: Seq<(RuleView, Seq<char>)>,
)
    ensures
        merge_feature_pairs(acc, ps + qs) == merge_feature_pairs(merge_feature_pairs(acc, ps), qs),
    decreases qs.len(),
{
    if qs.len() > 0 {
        lemma_merge_feature_pairs_append(acc, ps, qs.drop_last());
        assert((ps + qs).drop_last() =~= ps + qs.drop_last());
        assert((ps + qs).last() == qs.last());
    }
}

proof fn lemma_merge_rule_features(acc: Seq<StructureView>, r: RuleView, n: int)
    requires
        0 <= n <= r.target_structure.len(),
    ensures
        merge_rule_features(acc, r, n) == merge_feature_pairs(
            acc,
            r.target_structure.map_values(|f: Seq<char>| (r, f)).take(n),
        ),
    decreases n,
{
    if n > 0 {
        lemma_merge_rule_features(acc, r, n - 1);
        let all = r.target_structure.map_values(|f: Seq<char>| (r, f));
        assert(all.take(n).drop_last() =~= all.take(n - 1));
    }
}

proof fn lemma_merge_structures_is_pairwise(rules: Seq<RuleView>)
    ensures
        merge_structures(rules) == merge_feature_pairs(Seq::empty(), feature_pairs(rules)),
    decreases rules.len(),
{
    if rules.len() > 0 {
        let r = rules.last();
        let own = r.target_structure.map_values(|f: Seq<char>| (r, f));
        lemma_merge_structures_is_pairwise(rules.drop_last());
        lemma_merge_rule_features(merge_structures(rules.drop_last()), r, r.target_structure.len() as int);
        assert(own.take(r.target_structure.len() as int) =~= own);
        lemma_merge_feature_pairs_append(Seq::empty(), feature_pairs(rules.drop_last()), own);
    }
}

/// The structure merge: each target structure of the contributing rules is
/// suggested exactly once, in the order the features first come up, and its
/// `why` lists the `why` of every contributing rule that names it, in rank
/// order.
pub proof fn merged_structures_keep_first_contributor(rules: Seq<RuleView>)
    ensures
        merged_from_feature_pairs(merge_structures(rules), feature_pairs(rules)),
{
    lemma_merge_structures_is_pairwise(rules);
    lemma_merge_feature_pairs(feature_pairs(rules));
}


// ---------------------------------------------------------------------------
// What the suggestions are made of
// ---------------------------------------------------------------------------

pub open spec fn suggested_categories(m: Seq<SuggestionView>) -> Set<Seq<char>> {
    m.map_values(|s: SuggestionView| s.bait_category).to_set()
}

pub open spec fn offered_categories(rules: Seq<RuleView>) -> Set<Seq<char>> {
    bait_pairs(rules).map_values(|p: (RuleView, BaitView)| p.1.category).to_set()
}

pub open spec fn suggested_features(m: Seq<StructureView>) -> Set<Seq<char>> {
    m.map_values(|s: StructureView| s.feature).to_set()
}

pub open spec fn offered_features(rules: Seq<RuleView>) -> Set<Seq<char>> {
    feature_pairs(rules).map_values(|p: (RuleView, Seq<char>)| p.1).to_set()
}

/// The suggested bait categories are exactly those the contributing rules
/// offer, and the structure features exactly those they name; with no
/// contributing bait or feature there is no suggestion of that kind.
pub proof fn suggestions_are_what_the_rules_offer(rules: Seq<RuleView>)
    ensures
        suggested_categories(merge_suggestions(rules)) == offered_categories(rules),
        suggested_features(merge_structures(rules)) == offered_features(rules),
        bait_pairs(rules).len() == 0 ==> merge_suggestions(rules).len() == 0,
        feature_pairs(rules).len() == 0 ==> merge_structures(rules).len() == 0,
{
    let m = merge_suggestions(rules);
    let ps = bait_pairs(rules);
    merged_suggestions_keep_first_contributor(rules);
    let mc = m.map_values(|s: SuggestionView| s.bait_category);
    let pc = ps.map_values(|p: (RuleView, BaitView)| p.1.category);
    assert(suggested_categories(m) =~= offered_categories(rules)) by {
        assert forall|c: Seq<char>| suggested_categories(m).contains(c) implies offered_categories(
            rules,
        ).contains(c) by {
            let k = choose|k: int| 0 <= k < mc.len() && mc[k] == c;
            assert(m[k].bait_category == c);
            assert(first_pair(ps, m[k].bait_category) >= 0);
            lemma_first_pair(ps, c);
            let f = first_pair(ps, c);
            assert(pc[f] == c);
        }
        assert forall|c: Seq<char>| offered_categories(rules).contains(c) implies suggested_categories(
            m,
        ).contains(c) by {
            let i = choose|i: int| 0 <= i < pc.len() && pc[i] == c;
            assert(ps[i].1.category == c);
            let k = choose|k: int| 0 <= k < m.len() && #[trigger] m[k].bait_category == #[trigger] ps[i].1.category;
            assert(mc[k] == c);
        }
    }
    if ps.len() == 0 && m.len() > 0 {
        assert(first_pair(ps, m[0].bait_category) >= 0);
    }
    let n = merge_structures(rules);
    let fs = feature_pairs(rules);
    merged_structures_keep_first_contributor(rules);
    let nc = n.map_values(|s: StructureView| s.feature);
    let fc = fs.map_values(|p: (RuleView, Seq<char>)| p.1);
    assert(suggested_features(n) =~= offered_features(rules)) by {
        assert forall|c: Seq<char>| suggested_features(n).contains(c) implies offered_features(
            rules,
        ).contains(c) by {
            let k = choose|k: int| 0 <= k < nc.len() && nc[k] == c;
            assert(n[k].feature == c);
            assert(first_feature_pair(fs, n[k].feature) >= 0);
            lemma_first_feature_pair(fs, c);
            let f = first_feature_pair(fs, c);
            assert(fc[f] == c);
        }
        assert forall|c: Seq<char>| offered_features(rules).contains(c) implies suggested_features(
            n,
        ).contains(c) by {
            let i = choose|i: int| 0 <= i < fc.len() && fc[i] == c;
            assert(fs[i].1 == c);
            let k = choose|k: int| 0 <= k < n.len() && #[trigger] n[k].feature == #[trigger] fs[i].1;
            assert(nc[k] == c);
        }
    }
    if fs.len() == 0 && n.len() > 0 {
        assert(first_feature_pair(fs, n[0].feature) >= 0);
    }
}


// ---------------------------------------------------------------------------
// The order of the rules file does not matter
// ---------------------------------------------------------------------------

/// No two rules share an id.
pub open spec fn distinct_ids(rules: Seq<RuleView>) -> bool {
    forall|i: int, j: int| 0 <= i < j < rules.len() ==> (#[trigger] rules[i]).id != (#[trigger] rules[j]).id
}

proof fn lemma_encode_utf8_injective(a: Seq<char>, b: Seq<char>)
    requires
        encode_utf8(a) == encode_utf8(b),
    ensures
        a == b,
{
    vstd::utf8::encode_utf8_decode_utf8(a);
    vstd::utf8::encode_utf8_decode_utf8(b);
}

proof fn lemma_bytes_before_total(a: Seq<u8>, b: Seq<u8>)
    requires
        a != b,
    ensures
        bytes_before(a, b) || bytes_before(b, a),
    decreases a.len(),
{
    if a.len() > 0 && b.len() > 0 && a[0] == b[0] {
        if a.drop_first() == b.drop_first() {
            assert(a =~= seq![a[0]] + a.drop_first());
            assert(b =~= seq![b[0]] + b.drop_first());
        }
        lemma_bytes_before_total(a.drop_first(), b.drop_first());
    } else if a.len() == 0 && b.len() == 0 {
        assert(a =~= b);
    }
}

/// Rules with different ids are ordered one way or the other.
proof fn lemma_ranks_before_total(x: RuleView, y: RuleView)
    requires
        x.id != y.id,
    ensures
        ranks_before(x, y) || ranks_before(y, x),
{
    if x.weight == y.weight {
        if encode_utf8(x.id) == encode_utf8(y.id) {
            lemma_encode_utf8_injective(x.id, y.id);
        }
        lemma_bytes_before_total(encode_utf8(x.id), encode_utf8(y.id));
    }
}

proof fn lemma_matching_count(rules: Seq<RuleView>, tags: Set<Seq<char>>, r: RuleView)
    ensures
        matching(rules, tags).to_multiset().count(r) == (if fires(r, tags) {
            rules.to_multiset().count(r)
        } else {
            0
        }),
    decreases rules.len(),
{
    broadcast use vstd::seq_lib::group_to_multiset_ensures;

    if rules.len() == 0 {
    } else {
        lemma_matching_count(rules.drop_last(), tags, r);
        assert(rules.drop_last().push(rules.last()) =~= rules);
    }
}

/// Two rank-ordered sequences with the same rules, any two different rules
/// being ordered, are the same sequence.
proof fn lemma_rank_order_unique(s: Seq<RuleView>, t: Seq<RuleView>)
    requires
        in_rank_order(s),
        in_rank_order(t),
        s.to_multiset() == t.to_multiset(),
        forall|x: RuleView, y: RuleView|
            #[trigger] s.contains(x) && #[trigger] s.contains(y) && x != y ==> ranks_before(x, y)
                || ranks_before(y, x),
    ensures
        s == t,
    decreases s.len(),
{
    broadcast use vstd::seq_lib::group_to_multiset_ensures;

    if s.len() == 0 {
        vstd::seq_lib::to_multiset_len(s);
        vstd::seq_lib::to_multiset_len(t);
        assert(t.len() == 0);
        assert(s =~= t);
    } else {
        vstd::seq_lib::to_multiset_len(s);
        vstd::seq_lib::to_multiset_len(t);
        assert(t.len() == s.len());
        let x = s[0];
        let y = t[0];
        assert(t.to_multiset().count(x) > 0);
        assert(s.to_multiset().count(y) > 0);
        assert(t.contains(x));
        assert(s.contains(y));
        if x != y {
            let k = choose|k: int| 0 <= k < t.len() && t[k] == x;
            let m = choose|m: int| 0 <= m < s.len() && s[m] == y;
            assert(s.contains(x));
            if ranks_before(x, y) {
                assert(!ranks_before(t[k], t[0]));
            } else {
                assert(!ranks_before(s[m], s[0]));
            }
        }
        let s1 = s.drop_first();
        let t1 = t.drop_first();
        assert(s.remove(0) =~= s1);
        assert(t.remove(0) =~= t1);
        assert(s1.to_multiset() =~= t1.to_multiset());
        assert forall|i: int, j: int| 0 <= i < j < s1.len() implies !ranks_before(#[trigger] s1[j], #[trigger] s1[i]) by {
            assert(s1[i] == s[i + 1] && s1[j] == s[j + 1]);
        }
        assert forall|i: int, j: int| 0 <= i < j < t1.len() implies !ranks_before(#[trigger] t1[j], #[trigger] t1[i]) by {
            assert(t1[i] == t[i + 1] && t1[j] == t[j + 1]);
        }
        assert forall|a: RuleView, b: RuleView|
            #[trigger] s1.contains(a) && #[trigger] s1.contains(b) && a != b implies ranks_before(a, b)
                || ranks_before(b, a) by {
            let i = choose|i: int| 0 <= i < s1.len() && s1[i] == a;
            let j = choose|j: int| 0 <= j < s1.len() && s1[j] == b;
            assert(s[i + 1] == a && s[j + 1] == b);
            assert(s.contains(a) && s.contains(b));
        }
        lemma_rank_order_unique(s1, t1);
        assert(s =~= seq![x] + s1);
        assert(t =~= seq![y] + t1);
    }
}

/// With distinct rule ids, the order of the rules does not change which
/// rules contribute, in which order, nor the merged suggestions.
pub proof fn rule_order_does_not_matter(a: Seq<RuleView>, b: Seq<RuleView>, tags: Set<Seq<char>>, top_n: int)
    requires
        a.to_multiset() == b.to_multiset(),
        distinct_ids(a),
    ensures
        top_rules(a, tags, top_n) == top_rules(b, tags, top_n),
        merge_suggestions(top_rules(a, tags, top_n)) == merge_suggestions(top_rules(b, tags, top_n)),
        merge_structures(top_rules(a, tags, top_n)) == merge_structures(top_rules(b, tags, top_n)),
{
    broadcast use vstd::seq_lib::group_to_multiset_ensures;

    let ma = matching(a, tags);
    let mb = matching(b, tags);
    let ra = rank(ma);
    let rb = rank(mb);
    assert(ma.to_multiset() =~= mb.to_multiset()) by {
        assert forall|r: RuleView| ma.to_multiset().count(r) == mb.to_multiset().count(r) by {
            lemma_matching_count(a, tags, r);
            lemma_matching_count(b, tags, r);
        }
    }
    rank_is_ordered(ma);
    rank_is_ordered(mb);
    rank_is_permutation(ma);
    rank_is_permutation(mb);
    assert forall|x: RuleView, y: RuleView|
        #[trigger] ra.contains(x) && #[trigger] ra.contains(y) && x != y implies ranks_before(x, y)
            || ranks_before(y, x) by {
        assert(ra.to_multiset().count(x) > 0 && ra.to_multiset().count(y) > 0);
        lemma_matching_count(a, tags, x);
        lemma_matching_count(a, tags, y);
        assert(a.contains(x) && a.contains(y));
        let i = choose|i: int| 0 <= i < a.len() && a[i] == x;
        let j = choose|j: int| 0 <= j < a.len() && a[j] == y;
        if i < j {
            assert(a[i].id != a[j].id);
        } else {
            assert(a[j].id != a[i].id);
        }
        lemma_ranks_before_total(x, y);
    }
    lemma_rank_order_unique(ra, rb);
}


// ---------------------------------------------------------------------------
// Which rules fire
// ---------------------------------------------------------------------------

/// A rule takes part exactly when every tag in its `requires` list is among
/// the tags: the firing rules are the rules, in file order, whose required
/// tags are all present, and no contributing rule lacks a required tag.
pub proof fn a_rule_fires_only_with_all_its_tags(rules: Seq<RuleView>, tags: Set<Seq<char>>, top_n: int)
    requires
        top_n >= 0,
    ensures
        forall|r: RuleView|
            #[trigger] matching(rules, tags).contains(r) <==> rules.contains(r) && (forall|i: int|
                0 <= i < r.requires.len() ==> tags.contains(r.requires[i])),
        forall|k: int, i: int|
            0 <= k < top_rules(rules, tags, top_n).len() && 0 <= i < top_rules(
                rules,
                tags,
                top_n,
            )[k].requires.len() ==> tags.contains(#[trigger] top_rules(rules, tags, top_n)[k].requires[i]),
        forall|r: RuleView, i: int|
            #![trigger matching(rules, tags).contains(r), r.requires[i]]
            0 <= i < r.requires.len() && !tags.contains(r.requires[i]) ==> !matching(
                rules,
                tags,
            ).contains(r),
{
    matching_keeps_exactly_the_firing_rules(rules, tags);
    contributing_rules_fire_in_rank_order(rules, tags, top_n);
    assert forall|r: RuleView|
        #[trigger] matching(rules, tags).contains(r) <==> rules.contains(r) && (forall|i: int|
            0 <= i < r.requires.len() ==> tags.contains(r.requires[i])) by {
        if rules.contains(r) && (forall|i: int| 0 <= i < r.requires.len() ==> tags.contains(r.requires[i])) {
            assert(fires(r, tags));
        }
    }
    assert forall|k: int, i: int|
        0 <= k < top_rules(rules, tags, top_n).len() && 0 <= i < top_rules(
            rules,
            tags,
            top_n,
        )[k].requires.len() implies tags.contains(#[trigger] top_rules(rules, tags, top_n)[k].requires[i]) by {
        assert(fires(top_rules(rules, tags, top_n)[k], tags));
    }
}


/// The contributing rules come heaviest first, rules of equal weight by id
/// (no later rule has a smaller id), and there are `top_n` of them or, when
/// fewer rules fire, all the firing ones.
pub proof fn contributing_rules_heaviest_first(rules: Seq<RuleView>, tags: Set<Seq<char>>, top_n: int)
    requires
        top_n >= 0,
    ensures
        forall|i: int, j: int|
            0 <= i < j < top_rules(rules, tags, top_n).len() ==> (#[trigger] top_rules(rules, tags, top_n)[i]).weight
                >= (#[trigger] top_rules(rules, tags, top_n)[j]).weight,
        forall|i: int, j: int|
            0 <= i < j < top_rules(rules, tags, top_n).len() && (#[trigger] top_rules(rules, tags, top_n)[i]).weight
                == (#[trigger] top_rules(rules, tags, top_n)[j]).weight ==> !text_before(
                top_rules(rules, tags, top_n)[j].id,
                top_rules(rules, tags, top_n)[i].id,
            ),
        top_rules(rules, tags, top_n).len() == (if top_n < matching(rules, tags).len() {
            top_n
        } else {
            matching(rules, tags).len() as int
        }),
{
    broadcast use vstd::seq_lib::group_to_multiset_ensures;

    contributing_rules_fire_in_rank_order(rules, tags, top_n);
    rank_is_permutation(matching(rules, tags));
    vstd::seq_lib::to_multiset_len(rank(matching(rules, tags)));
    vstd::seq_lib::to_multiset_len(matching(rules, tags));
    let top = top_rules(rules, tags, top_n);
    assert forall|i: int, j: int| 0 <= i < j < top.len() implies (#[trigger] top[i]).weight >= (
    #[trigger] top[j]).weight by {
        assert(!ranks_before(top[j], top[i]));
    }
    assert forall|i: int, j: int|
        0 <= i < j < top.len() && (#[trigger] top[i]).weight == (#[trigger] top[j]).weight implies !text_before(
            top[j].id,
            top[i].id,
        ) by {
        assert(!ranks_before(top[j], top[i]));
    }
}

} // verus!
