//! Tag groups: named sets of charts, each chart a short list of tags, with
//! their validation rules and the in-memory store that holds them.

use vstd::prelude::*;
use crate::error::AppError;
use crate::models::{DataProcessingConfig, is_blank_config};
use crate::order::{has_text, sort_by_key, dedup_sorted, strictly_sorted_by_key, keys_of};
use crate::text::{int_text, nat_text, push_int, push_nat, trim_text, trimmed};
use crate::time::{now_local_text, now_millis};

verus! {

pub const MAX_TAGS_PER_CHART: usize = 5;

pub const MAX_CHARTS_PER_GROUP: usize = 10;

/// One chart: a name and the tags it plots.
#[derive(Debug, Clone)]
pub struct ChartConfig {
    pub id: String,
    pub name: String,
    pub tags: Vec<String>,
}

/// The rule a chart breaks, if any.
pub open spec fn chart_error(c: ChartConfig) -> Option<Seq<char>> {
    if c.tags@.len() > MAX_TAGS_PER_CHART {
        Some("图表 '"@ + c.name@ + "' 最多包含 5 个标签，当前 "@ + nat_text(c.tags@.len()))
    } else {
        None
    }
}

/// The error of the first chart that breaks a rule, if any.
pub open spec fn first_chart_error(cs: Seq<ChartConfig>) -> Option<Seq<char>>
    decreases cs.len(),
{
    if cs.len() == 0 {
        None
    } else if chart_error(cs[0]).is_some() {
        chart_error(cs[0])
    } else {
        first_chart_error(cs.drop_first())
    }
}

/// The rule that a group name (trimmed) and chart list break, if any.
pub open spec fn group_error(trimmed_name: Seq<char>, charts: Seq<ChartConfig>) -> Option<Seq<char>> {
    if trimmed_name.len() == 0 {
        Some("分组名称不能为空"@)
    } else if charts.len() > MAX_CHARTS_PER_GROUP {
        Some("每个分组最多包含 10 个图表"@)
    } else {
        first_chart_error(charts)
    }
}

/// An identifier made of a prefix letter and a millisecond time.
pub open spec fn stamped_id(prefix: char, id: Seq<char>) -> bool {
    exists|t: i64| id == seq![prefix] + int_text(t as int)
}

fn stamp_id(prefix: &str) -> (r: String)
    requires
        prefix@.len() == 1,
    ensures
        stamped_id(prefix@[0], r@),
{
    let t = now_millis();
    let mut s = String::from_str(prefix);
    push_int(&mut s, t);
    assert(prefix@ =~= seq![prefix@[0]]);
    s
}

impl ChartConfig {
    /// A chart without tags, with an identifier taken from the current time.
    pub fn new(name: String) -> (r: Self)
        ensures
            r.name == name,
            r.tags@.len() == 0,
            stamped_id('c', r.id@),
    {
        proof {
            reveal_strlit("c");
        }
        ChartConfig { id: stamp_id("c"), name, tags: Vec::new() }
    }

    pub fn with_id(id: String, name: String) -> (r: Self)
        ensures
            r.id == id,
            r.name == name,
            r.tags@.len() == 0,
    {
        ChartConfig { id, name, tags: Vec::new() }
    }

    pub fn with_tags(self, tags: Vec<String>) -> (r: Self)
        ensures
            r.id == self.id,
            r.name == self.name,
            r.tags == tags,
    {
        let mut c = self;
        c.tags = tags;
        c
    }

    /// At most five tags per chart.
    pub fn validate(&self) -> (r: Result<(), String>)
        ensures
            match r {
                Ok(_) => chart_error(*self).is_none(),
                Err(m) => chart_error(*self) == Some(m@),
            },
    {
        if self.tags.len() > MAX_TAGS_PER_CHART {
            let mut m = String::from_str("图表 '");
            m.append(self.name.as_str());
            m.append("' 最多包含 5 个标签，当前 ");
            push_nat(&mut m, self.tags.len() as u64);
            return Err(m);
        }
        Ok(())
    }

    /// A field-for-field copy.
    pub fn duplicate(&self) -> (r: Self)
        ensures
            r.id == self.id,
            r.name == self.name,
            r.tags@ == self.tags@,
    {
        ChartConfig { id: self.id.clone(), name: self.name.clone(), tags: copy_texts(&self.tags) }
    }
}

/// A text-for-text copy.
pub fn copy_texts(v: &Vec<String>) -> (r: Vec<String>)
    ensures
        r@ == v@,
{
    let mut r: Vec<String> = Vec::new();
    let mut i: usize = 0;
    while i < v.len()
        invariant
            0 <= i <= v@.len(),
            r@ == v@.subrange(0, i as int),
        decreases v@.len() - i,
    {
        r.push(v[i].clone());
        i = i + 1;
        assert(r@ =~= v@.subrange(0, i as int));
    }
    assert(v@.subrange(0, v@.len() as int) =~= v@);
    r
}

/// Copies a chart list; each copy keeps the id, name and tags.
pub fn copy_charts(v: &Vec<ChartConfig>) -> (r: Vec<ChartConfig>)
    ensures
        r@.len() == v@.len(),
        forall|i: int| 0 <= i < r@.len() ==> (#[trigger] r@[i]).id == v@[i].id && r@[i].name == v@[i].name && r@[i].tags@ == v@[i].tags@,
{
    let mut r: Vec<ChartConfig> = Vec::new();
    let mut i: usize = 0;
    while i < v.len()
        invariant
            0 <= i <= v@.len(),
            r@.len() == i,
            forall|j: int| 0 <= j < i ==> (#[trigger] r@[j]).id == v@[j].id && r@[j].name == v@[j].name && r@[j].tags@ == v@[j].tags@,
        decreases v@.len() - i,
    {
        r.push(v[i].duplicate());
        i = i + 1;
    }
    r
}

/// Checks every chart; the first error wins.
fn validate_charts(charts: &Vec<ChartConfig>) -> (r: Result<(), String>)
    ensures
        match r {
            Ok(_) => first_chart_error(charts@).is_none(),
            Err(m) => first_chart_error(charts@) == Some(m@),
        },
{
    let mut i: usize = 0;
    assert(charts@.subrange(0, charts@.len() as int) =~= charts@);
    while i < charts.len()
        invariant
            0 <= i <= charts@.len(),
            first_chart_error(charts@) == first_chart_error(charts@.subrange(i as int, charts@.len() as int)),
        decreases charts@.len() - i,
    {
        let ghost rest = charts@.subrange(i as int, charts@.len() as int);
        assert(rest[0] == charts@[i as int]);
        assert(rest.drop_first() =~= charts@.subrange(i + 1, charts@.len() as int));
        let v = charts[i].validate();
        if v.is_err() {
            return v;
        }
        i = i + 1;
    }
    Ok(())
}

/// A group name made of white space only is refused.
pub proof fn lemma_blank_group_name_rejected(name: Seq<char>, charts: Seq<ChartConfig>)
    requires
        forall|i: int| 0 <= i < name.len() ==> crate::text::is_white_space(#[trigger] name[i]),
    ensures
        group_error(trimmed(name), charts) == Some("分组名称不能为空"@),
{
    crate::text::lemma_blank_trims_empty(name);
}

/// A named group of charts and the processing applied to their data.
#[derive(Debug, Clone)]
pub struct TagGroup {
    pub id: String,
    pub name: String,
    pub charts: Vec<ChartConfig>,
    pub processing_config: DataProcessingConfig,
    pub created_at: String,
    pub updated_at: String,
}

/// Some chart of the group plots tag `t`.
pub open spec fn group_has_tag(charts: Seq<ChartConfig>, t: Seq<char>) -> bool {
    exists|k: int| 0 <= k < charts.len() && has_text((#[trigger] charts[k]).tags@, t)
}

impl TagGroup {
    /// A new group named by the trimmed `name`, stamped with the current time.
    pub fn new(name: String, charts: Vec<ChartConfig>) -> (r: Result<Self, String>)
        ensures
            match r {
                Ok(g) => group_error(trimmed(name@), charts@).is_none()
                    && g.name@ == trimmed(name@)
                    && g.charts == charts
                    && is_blank_config(g.processing_config)
                    && g.created_at == g.updated_at
                    && stamped_id('g', g.id@),
                Err(m) => group_error(trimmed(name@), charts@) == Some(m@),
            },
    {
        let trimmed = trim_text(name.as_str());
        if trimmed.as_str().unicode_len() == 0 {
            return Err(String::from_str("分组名称不能为空"));
        }
        if charts.len() > MAX_CHARTS_PER_GROUP {
            return Err(String::from_str("每个分组最多包含 10 个图表"));
        }
        let v = validate_charts(&charts);
        match v {
            Err(m) => {
                return Err(m);
            },
            Ok(_) => {},
        }
        let now = now_local_text();
        proof {
            reveal_strlit("g");
        }
        let id = stamp_id("g");
        Ok(TagGroup {
            id,
            name: trimmed,
            charts,
            processing_config: DataProcessingConfig::new(),
            created_at: now.clone(),
            updated_at: now,
        })
    }

    pub fn with_id(id: String, name: String, charts: Vec<ChartConfig>, created_at: String, updated_at: String) -> (r: Self)
        ensures
            r.id == id,
            r.name == name,
            r.charts == charts,
            is_blank_config(r.processing_config),
            r.created_at == created_at,
            r.updated_at == updated_at,
    {
        TagGroup { id, name, charts, processing_config: DataProcessingConfig::new(), created_at, updated_at }
    }

    /// Renames the group and replaces its charts (and processing, when given),
    /// stamping the update time; on a broken rule nothing changes.
    pub fn update(&mut self, name: String, charts: Vec<ChartConfig>, processing_config: Option<DataProcessingConfig>) -> (r: Result<(), String>)
        ensures
            match r {
                Ok(_) => group_error(trimmed(name@), charts@).is_none()
                    && final(self).name@ == trimmed(name@)
                    && final(self).charts == charts
                    && final(self).processing_config == (match processing_config {
                        Some(c) => c,
                        None => old(self).processing_config,
                    })
                    && final(self).id == old(self).id
                    && final(self).created_at == old(self).created_at,
                Err(m) => group_error(trimmed(name@), charts@) == Some(m@) && *final(self) == *old(self),
            },
    {
        let trimmed = trim_text(name.as_str());
        if trimmed.as_str().unicode_len() == 0 {
            return Err(String::from_str("分组名称不能为空"));
        }
        if charts.len() > MAX_CHARTS_PER_GROUP {
            return Err(String::from_str("每个分组最多包含 10 个图表"));
        }
        let v = validate_charts(&charts);
        match v {
            Err(m) => {
                return Err(m);
            },
            Ok(_) => {},
        }
        self.name = trimmed;
        self.charts = charts;
        match processing_config {
            Some(c) => {
                self.processing_config = c;
            },
            None => {},
        }
        self.updated_at = now_local_text();
        Ok(())
    }

    /// Every tag of every chart, sorted, each once.
    pub fn all_tags(&self) -> (r: Vec<String>)
        ensures
            strictly_sorted_by_key(r@),
            forall|t: Seq<char>| has_text(r@, t) <==> group_has_tag(self.charts@, t),
    {
        let mut tags: Vec<String> = Vec::new();
        let mut k: usize = 0;
        while k < self.charts.len()
            invariant
                0 <= k <= self.charts@.len(),
                forall|t: Seq<char>| has_text(tags@, t) <==> group_has_tag(self.charts@.subrange(0, k as int), t),
            decreases self.charts@.len() - k,
        {
            let ghost before = tags@;
            let chart_tags = &self.charts[k].tags;
            let mut i: usize = 0;
            while i < chart_tags.len()
                invariant
                    0 <= i <= chart_tags@.len(),
                    tags@ == before + chart_tags@.subrange(0, i as int),
                decreases chart_tags@.len() - i,
            {
                tags.push(chart_tags[i].clone());
                i = i + 1;
                assert(tags@ =~= before + chart_tags@.subrange(0, i as int));
            }
            proof {
                let cs = self.charts@.subrange(0, k + 1);
                assert(chart_tags@.subrange(0, chart_tags@.len() as int) =~= chart_tags@);
                assert forall|t: Seq<char>| has_text(tags@, t) <==> group_has_tag(cs, t) by {
                    assert(has_text(before, t) <==> group_has_tag(self.charts@.subrange(0, k as int), t));
                    if has_text(tags@, t) {
                        let j = choose|j: int| 0 <= j < tags@.len() && (#[trigger] tags@[j])@ == t;
                        if j < before.len() {
                            assert(before[j] == tags@[j]);
                            assert(has_text(before, t));
                            let m = choose|m: int| 0 <= m < k && has_text((#[trigger] self.charts@.subrange(0, k as int)[m]).tags@, t);
                            assert(cs[m] == self.charts@.subrange(0, k as int)[m]);
                        } else {
                            assert(chart_tags@[j - before.len()] == tags@[j]);
                            assert(has_text(chart_tags@, t));
                            assert(cs[k as int] == self.charts@[k as int]);
                        }
                    }
                    if group_has_tag(cs, t) {
                        let m = choose|m: int| 0 <= m < cs.len() && has_text((#[trigger] cs[m]).tags@, t);
                        if m < k {
                            assert(cs[m] == self.charts@.subrange(0, k as int)[m]);
                            assert(group_has_tag(self.charts@.subrange(0, k as int), t));
                            let j = choose|j: int| 0 <= j < before.len() && (#[trigger] before[j])@ == t;
                            assert(tags@[j] == before[j]);
                        } else {
                            assert(cs[m] == self.charts@[k as int]);
                            let j = choose|j: int| 0 <= j < chart_tags@.len() && (#[trigger] chart_tags@[j])@ == t;
                            assert(tags@[before.len() + j] == chart_tags@[j]);
                        }
                    }
                }
            }
            k = k + 1;
        }
        assert(self.charts@.subrange(0, self.charts@.len() as int) =~= self.charts@);
        let ghost unsorted = tags@;
        sort_by_key(&mut tags);
        proof {
            assert forall|t: Seq<char>| has_text(tags@, t) <==> has_text(unsorted, t) by {
                lemma_has_text_multiset(tags@, unsorted, t);
            }
        }
        let r = dedup_sorted(&tags);
        proof {
            assert forall|t: Seq<char>| has_text(r@, t) <==> group_has_tag(self.charts@, t) by {
                assert(has_text(unsorted, t) <==> group_has_tag(self.charts@.subrange(0, self.charts@.len() as int), t));
                assert(has_text(tags@, t) <==> has_text(unsorted, t));
            }
        }
        r
    }

    /// A field-for-field copy.
    pub fn duplicate(&self) -> (r: Self)
        ensures
            r.id == self.id,
            r.name == self.name,
            r.charts@.len() == self.charts@.len(),
            r.processing_config == self.processing_config,
            r.created_at == self.created_at,
            r.updated_at == self.updated_at,
    {
        TagGroup {
            id: self.id.clone(),
            name: self.name.clone(),
            charts: copy_charts(&self.charts),
            processing_config: self.processing_config.duplicate(),
            created_at: self.created_at.clone(),
            updated_at: self.updated_at.clone(),
        }
    }
}

/// Two sequences of texts with the same keys, counted with repetition, hold
/// the same texts.
proof fn lemma_has_text_multiset(a: Seq<String>, b: Seq<String>, t: Seq<char>)
    requires
        keys_of(a).to_multiset() == keys_of(b).to_multiset(),
    ensures
        has_text(a, t) <==> has_text(b, t),
{
    broadcast use vstd::seq_lib::to_multiset_contains;

    if has_text(a, t) {
        let j = choose|j: int| 0 <= j < a.len() && (#[trigger] a[j])@ == t;
        assert(keys_of(a)[j] == t);
        assert(keys_of(a).contains(t));
        assert(keys_of(a).to_multiset().count(t) > 0);
        assert(keys_of(b).contains(t));
        let m = choose|m: int| 0 <= m < keys_of(b).len() && keys_of(b)[m] == t;
        assert(b[m]@ == t);
    }
    if has_text(b, t) {
        let j = choose|j: int| 0 <= j < b.len() && (#[trigger] b[j])@ == t;
        assert(keys_of(b)[j] == t);
        assert(keys_of(b).contains(t));
        assert(keys_of(b).to_multiset().count(t) > 0);
        assert(keys_of(a).contains(t));
        let m = choose|m: int| 0 <= m < keys_of(a).len() && keys_of(a)[m] == t;
        assert(a[m]@ == t);
    }
}

/// The stored tag groups.
#[derive(Debug, Clone)]
pub struct TagGroupConfig {
    pub version: u32,
    pub groups: Vec<TagGroup>,
}

/// Position of the first group with identifier `id`, or -1.
pub open spec fn group_index(gs: Seq<TagGroup>, id: Seq<char>) -> int {
    if exists|i: int| 0 <= i < gs.len() && (#[trigger] gs[i]).id@ == id && forall|j: int| 0 <= j < i ==> (#[trigger] gs[j]).id@ != id {
        choose|i: int| 0 <= i < gs.len() && (#[trigger] gs[i]).id@ == id && forall|j: int| 0 <= j < i ==> (#[trigger] gs[j]).id@ != id
    } else {
        -1
    }
}

/// Some group other than the one with identifier `except` is named `name`.
pub open spec fn name_taken(gs: Seq<TagGroup>, name: Seq<char>, except: Option<Seq<char>>) -> bool {
    exists|i: int| 0 <= i < gs.len() && (#[trigger] gs[i]).name@ == name && match except {
        Some(id) => gs[i].id@ != id,
        None => true,
    }
}

pub open spec fn duplicate_name_text(name: Seq<char>) -> Seq<char> {
    "分组名称 '"@ + name + "' 已存在"@
}

pub open spec fn missing_group_text(id: Seq<char>) -> Seq<char> {
    "分组 '"@ + id + "' 不存在"@
}

impl Default for TagGroupConfig {
    fn default() -> (r: Self)
        ensures
            r.version == 1,
            r.groups@.len() == 0,
    {
        TagGroupConfig { version: 1, groups: Vec::new() }
    }
}

impl TagGroupConfig {
    pub fn new() -> (r: Self)
        ensures
            r.version == 1,
            r.groups@.len() == 0,
    {
        TagGroupConfig { version: 1, groups: Vec::new() }
    }

    pub fn list_groups(&self) -> (r: &[TagGroup])
        ensures
            r@ == self.groups@,
    {
        self.groups.as_slice()
    }

    fn find_index(&self, id: &str) -> (r: Option<usize>)
        ensures
            match r {
                Some(i) => i as int == group_index(self.groups@, id@) && i < self.groups@.len(),
                None => group_index(self.groups@, id@) == -1,
            },
    {
        let mut i: usize = 0;
        while i < self.groups.len()
            invariant
                0 <= i <= self.groups@.len(),
                forall|j: int| 0 <= j < i ==> (#[trigger] self.groups@[j]).id@ != id@,
            decreases self.groups@.len() - i,
        {
            if self.groups[i].id.as_str().unicode_len() == id.unicode_len() && text_equal(self.groups[i].id.as_str(), id) {
                proof {
                    let gs = self.groups@;
                    assert(0 <= i < gs.len() && gs[i as int].id@ == id@ && forall|j: int| 0 <= j < i ==> (#[trigger] gs[j]).id@ != id@);
                    let c = group_index(gs, id@);
                    if c < i {
                        assert(gs[c].id@ != id@);
                    } else if c > i {
                        assert(gs[i as int].id@ != id@);
                    }
                }
                return Some(i);
            }
            i = i + 1;
        }
        None
    }

    /// The first group with the given identifier.
    pub fn get_group(&self, id: &str) -> (r: Option<&TagGroup>)
        ensures
            match r {
                Some(g) => group_index(self.groups@, id@) >= 0 && *g == self.groups@[group_index(self.groups@, id@)],
                None => group_index(self.groups@, id@) == -1,
            },
    {
        match self.find_index(id) {
            Some(i) => Some(&self.groups[i]),
            None => None,
        }
    }

    /// The first group with the given identifier, for changing in place.
    pub fn get_group_mut(&mut self, id: &str) -> (r: Option<&mut TagGroup>)
        ensures
            match r {
                Some(g) => group_index(old(self).groups@, id@) >= 0
                    && *g == old(self).groups@[group_index(old(self).groups@, id@)]
                    && final(self).groups@ == old(self).groups@.update(group_index(old(self).groups@, id@), *final(g))
                    && final(self).version == old(self).version,
                None => group_index(old(self).groups@, id@) == -1 && final(self).groups@ == old(self).groups@
                    && final(self).version == old(self).version,
            },
    {
        match self.find_index(id) {
            Some(i) => Some(&mut self.groups[i]),
            None => None,
        }
    }

    fn name_in_use(&self, name: &String, except: Option<&str>) -> (r: bool)
        ensures
            r == name_taken(self.groups@, name@, match except {
                Some(e) => Some(e@),
                None => None,
            }),
    {
        let mut i: usize = 0;
        while i < self.groups.len()
            invariant
                0 <= i <= self.groups@.len(),
                forall|j: int| 0 <= j < i ==> !((#[trigger] self.groups@[j]).name@ == name@ && match except {
                    Some(e) => self.groups@[j].id@ != e@,
                    None => true,
                }),
            decreases self.groups@.len() - i,
        {
            let g = &self.groups[i];
            if g.name == *name {
                let other = match except {
                    Some(e) => !text_equal(g.id.as_str(), e),
                    None => true,
                };
                if other {
                    return true;
                }
            }
            i = i + 1;
        }
        false
    }

    /// Adds a new group; a name already in use is refused.
    pub fn create_group(&mut self, name: String, charts: Vec<ChartConfig>) -> (r: Result<TagGroup, AppError>)
        ensures
            name_taken(old(self).groups@, trimmed(name@), None) ==> (r matches Err(AppError::Validation(m))
                && m@ == duplicate_name_text(trimmed(name@)) && final(self).groups@ == old(self).groups@),
            !name_taken(old(self).groups@, trimmed(name@), None) && group_error(trimmed(name@), charts@).is_some()
                ==> (r matches Err(AppError::Validation(m)) && Some(m@) == group_error(trimmed(name@), charts@)
                && final(self).groups@ == old(self).groups@),
            !name_taken(old(self).groups@, trimmed(name@), None) && group_error(trimmed(name@), charts@).is_none()
                ==> (r matches Ok(g) && g.name@ == trimmed(name@) && final(self).groups@.len() == old(self).groups@.len() + 1
                && final(self).groups@.drop_last() == old(self).groups@ && final(self).groups@.last().name@ == trimmed(name@)
                && final(self).groups@.last().charts == charts),
            final(self).version == old(self).version,
    {
        let trimmed = trim_text(name.as_str());
        if self.name_in_use(&trimmed, None) {
            let mut m = String::from_str("分组名称 '");
            m.append(trimmed.as_str());
            m.append("' 已存在");
            return Err(AppError::Validation(m));
        }
        match TagGroup::new(name, charts) {
            Err(m) => Err(AppError::Validation(m)),
            Ok(g) => {
                let copy = g.duplicate();
                self.groups.push(g);
                proof {
                    assert(self.groups@.drop_last() =~= old(self).groups@);
                }
                Ok(copy)
            },
        }
    }

    /// Changes a group; a name used by another group, an unknown identifier,
    /// or a broken rule is refused.
    #[verifier::rlimit(80)]
    pub fn update_group(
        &mut self,
        id: &str,
        name: String,
        charts: Vec<ChartConfig>,
        processing_config: Option<DataProcessingConfig>,
    ) -> (r: Result<TagGroup, AppError>)
        ensures
            name_taken(old(self).groups@, trimmed(name@), Some(id@)) ==> (r matches Err(AppError::Validation(m))
                && m@ == duplicate_name_text(trimmed(name@))),
            !name_taken(old(self).groups@, trimmed(name@), Some(id@)) && group_index(old(self).groups@, id@) < 0
                ==> (r matches Err(AppError::NotFound(m)) && m@ == missing_group_text(id@)),
            !name_taken(old(self).groups@, trimmed(name@), Some(id@)) && group_index(old(self).groups@, id@) >= 0
                && group_error(trimmed(name@), charts@).is_some() ==> (r matches Err(AppError::Validation(m))
                && Some(m@) == group_error(trimmed(name@), charts@)),
            r.is_err() ==> final(self).groups@ == old(self).groups@,
            r matches Ok(g) ==> g.name@ == trimmed(name@) && g.id@ == id@
                && final(self).groups@.len() == old(self).groups@.len()
                && final(self).groups@[group_index(old(self).groups@, id@)].name@ == trimmed(name@)
                && final(self).groups@[group_index(old(self).groups@, id@)].charts == charts
                && forall|j: int| 0 <= j < old(self).groups@.len() && j != group_index(old(self).groups@, id@)
                    ==> final(self).groups@[j] == old(self).groups@[j],
            final(self).version == old(self).version,
    {
        let trimmed = trim_text(name.as_str());
        if self.name_in_use(&trimmed, Some(id)) {
            let mut m = String::from_str("分组名称 '");
            m.append(trimmed.as_str());
            m.append("' 已存在");
            return Err(AppError::Validation(m));
        }
        match self.find_index(id) {
            None => {
                let mut m = String::from_str("分组 '");
                m.append(id);
                m.append("' 不存在");
                Err(AppError::NotFound(m))
            },
            Some(i) => {
                proof {
                    let gs = old(self).groups@;
                    assert(gs[i as int].id@ == id@);
                }
                let mut g = self.groups.remove(i);
                let ghost before = g;
                let res = g.update(name, charts, processing_config);
                let copy = g.duplicate();
                self.groups.insert(i, g);
                proof {
                    assert(self.groups@ =~= old(self).groups@.update(i as int, g));
                    assert(before == old(self).groups@[i as int]);
                }
                match res {
                    Err(m) => {
                        proof {
                            assert(self.groups@ =~= old(self).groups@);
                        }
                        Err(AppError::Validation(m))
                    },
                    Ok(_) => Ok(copy),
                }
            },
        }
    }

    /// Removes the first group with the given identifier.
    pub fn delete_group(&mut self, id: &str) -> (r: Result<(), AppError>)
        ensures
            group_index(old(self).groups@, id@) < 0 ==> (r matches Err(AppError::NotFound(m)) && m@ == missing_group_text(id@)
                && final(self).groups@ == old(self).groups@),
            group_index(old(self).groups@, id@) >= 0 ==> (r.is_ok()
                && final(self).groups@ == old(self).groups@.remove(group_index(old(self).groups@, id@))),
            final(self).version == old(self).version,
    {
        match self.find_index(id) {
            None => {
                let mut m = String::from_str("分组 '");
                m.append(id);
                m.append("' 不存在");
                Err(AppError::NotFound(m))
            },
            Some(i) => {
                let _ = self.groups.remove(i);
                Ok(())
            },
        }
    }
}

/// Whether two texts are equal.
pub fn text_equal(a: &str, b: &str) -> (r: bool)
    ensures
        r == (a@ == b@),
{
    let n = a.unicode_len();
    if n != b.unicode_len() {
        return false;
    }
    let mut i: usize = 0;
    while i < n
        invariant
            n == a@.len(),
            n == b@.len(),
            0 <= i <= n,
            a@.subrange(0, i as int) == b@.subrange(0, i as int),
        decreases n - i,
    {
        if a.get_char(i) != b.get_char(i) {
            return false;
        }
        i = i + 1;
        assert(a@.subrange(0, i as int) =~= a@.subrange(0, i - 1).push(a@[i - 1]));
        assert(b@.subrange(0, i as int) =~= b@.subrange(0, i - 1).push(b@[i - 1]));
    }
    assert(a@ =~= a@.subrange(0, n as int));
    assert(b@ =~= b@.subrange(0, n as int));
    true
}

/// The tag-group store, as held by the application.
#[derive(Debug, Clone)]
pub struct TagGroupConfigManager {
    pub config: TagGroupConfig,
}

impl TagGroupConfigManager {
    pub fn from_config(config: TagGroupConfig) -> (r: Self)
        ensures
            r.config.version == config.version,
            r.config.groups == config.groups,
    {
        TagGroupConfigManager { config }
    }

    pub fn list_groups(&self) -> (r: &[TagGroup])
        ensures
            r@ == self.config.groups@,
    {
        self.config.list_groups()
    }

    pub fn get_group(&self, id: &str) -> (r: Option<&TagGroup>)
        ensures
            match r {
                Some(g) => group_index(self.config.groups@, id@) >= 0
                    && *g == self.config.groups@[group_index(self.config.groups@, id@)],
                None => group_index(self.config.groups@, id@) == -1,
            },
    {
        self.config.get_group(id)
    }
}

} // verus!
