//! Tags: created on first use, linked to projects and tasks, listed in id order.
use vstd::prelude::*;
use crate::models::{StoreError, Tag};
use crate::text::to_owned_string;
use super::{links_v, Engine};
use super::tables::retain_links_without;
use super::model::{
    id_left, last_id_tags, lemma_filter_all, lemma_filter_members, lemma_filter_pairwise,
    lemma_filter_step, lemma_first_index, lemma_first_index_is, lemma_map_push, link_not,
    next_row_id, tag_named, EngineV, ErrorV, TagV, TaskV, full_msg,
};

verus! {

/// The tag is linked to `owner` in `links`.
pub open spec fn tag_linked(links: Seq<(int, int)>, owner: int) -> spec_fn(TagV) -> bool {
    |t: TagV| links.contains((owner, t.id))
}

impl EngineV {
    /// `INSERT OR IGNORE` of a tag, then the tag with that name.
    pub open spec fn get_or_create_tag(self, name: Seq<char>) -> (EngineV, Result<TagV, ErrorV>) {
        let i = self.tag_index(name);
        if i >= 0 {
            (self, Ok(self.tags[i]))
        } else if !id_left(last_id_tags(self.tags)) {
            (self, Err(ErrorV::Db(full_msg())))
        } else {
            let t = TagV { id: next_row_id(last_id_tags(self.tags)), name };
            (EngineV { tags: self.tags.push(t), ..self }, Ok(t))
        }
    }

    pub open spec fn get_tag_by_name(self, name: Seq<char>) -> Result<TagV, ErrorV> {
        let i = self.tag_index(name);
        if i >= 0 {
            Ok(self.tags[i])
        } else {
            Err(ErrorV::NotFound(name))
        }
    }

    /// The tags linked to a project, in id order.
    pub open spec fn tags_of_project(self, pid: int) -> Seq<TagV> {
        self.tags.filter(tag_linked(self.project_tags, pid))
    }

    /// The tags linked to a task, in id order.
    pub open spec fn tags_of_task(self, tid: int) -> Seq<TagV> {
        self.tags.filter(tag_linked(self.task_tags, tid))
    }

    /// `INSERT OR IGNORE` of a project link.
    pub open spec fn link_project_tag(self, pid: int, tid: int) -> EngineV {
        if self.project_tags.contains((pid, tid)) {
            self
        } else {
            EngineV { project_tags: self.project_tags.push((pid, tid)), ..self }
        }
    }

    /// `INSERT OR IGNORE` of a task link.
    pub open spec fn link_task_tag(self, task_id: int, tid: int) -> EngineV {
        if self.task_tags.contains((task_id, tid)) {
            self
        } else {
            EngineV { task_tags: self.task_tags.push((task_id, tid)), ..self }
        }
    }

    /// Each name in turn: the tag made if it is new, then linked to the project. The first
    /// failure stops the rest; what was done before it stays.
    pub open spec fn add_project_tags(self, pid: int, names: Seq<Seq<char>>) -> (EngineV, Result<(), ErrorV>)
        decreases names.len(),
    {
        if names.len() == 0 {
            (self, Ok(()))
        } else {
            let (s1, r) = self.add_project_tags(pid, names.drop_last());
            if r is Err {
                (s1, r)
            } else {
                let (s2, t) = s1.get_or_create_tag(names.last());
                match t {
                    Err(e) => (s2, Err(e)),
                    Ok(tag) => (s2.link_project_tag(pid, tag.id), Ok(())),
                }
            }
        }
    }

    /// As `add_project_tags`, for a task.
    pub open spec fn add_task_tags(self, task_id: int, names: Seq<Seq<char>>) -> (EngineV, Result<(), ErrorV>)
        decreases names.len(),
    {
        if names.len() == 0 {
            (self, Ok(()))
        } else {
            let (s1, r) = self.add_task_tags(task_id, names.drop_last());
            if r is Err {
                (s1, r)
            } else {
                let (s2, t) = s1.get_or_create_tag(names.last());
                match t {
                    Err(e) => (s2, Err(e)),
                    Ok(tag) => (s2.link_task_tag(task_id, tag.id), Ok(())),
                }
            }
        }
    }

    pub open spec fn add_tags_to_project(self, pname: Seq<char>, names: Seq<Seq<char>>) -> (EngineV, Result<(), ErrorV>) {
        match self.get_project_by_name(pname) {
            Err(e) => (self, Err(e)),
            Ok(p) => self.add_project_tags(p.id, names),
        }
    }

    pub open spec fn add_tags_to_task(self, pname: Seq<char>, tname: Seq<char>, names: Seq<Seq<char>>) -> (EngineV, Result<(), ErrorV>) {
        match self.get_task_by_name(pname, tname) {
            Err(e) => (self, Err(e)),
            Ok(t) => self.add_task_tags(t.id, names),
        }
    }

    /// The tags of the project with this name; none when there is no such project.
    pub open spec fn get_tags_for_project(self, pname: Seq<char>) -> Seq<TagV> {
        let i = self.project_index(pname);
        if i >= 0 {
            self.tags_of_project(self.projects[i].id)
        } else {
            Seq::empty()
        }
    }

    /// For each task of `ts` named `tname` in the project named `pname`, in order, its tags.
    pub open spec fn tags_of_matching_tasks(self, ts: Seq<TaskV>, pname: Seq<char>, tname: Seq<char>) -> Seq<TagV>
        decreases ts.len(),
    {
        if ts.len() == 0 {
            Seq::empty()
        } else {
            self.tags_of_matching_tasks(ts.drop_last(), pname, tname) + if self.task_matches(ts.last(), pname, tname) {
                self.tags_of_task(ts.last().id)
            } else {
                Seq::empty()
            }
        }
    }

    /// The tags of every task with this name in the project with this name (a done task and
    /// its pending successor may share a name).
    pub open spec fn get_tags_for_task(self, pname: Seq<char>, tname: Seq<char>) -> Seq<TagV> {
        self.tags_of_matching_tasks(self.tasks, pname, tname)
    }

    pub open spec fn remove_tag_from_project(self, pname: Seq<char>, tag: Seq<char>) -> (EngineV, Result<bool, ErrorV>) {
        match self.get_project_by_name(pname) {
            Err(e) => (self, Err(e)),
            Ok(p) => match self.get_tag_by_name(tag) {
                Err(e) => (self, Err(e)),
                Ok(t) => (
                    EngineV { project_tags: self.project_tags.filter(link_not((p.id, t.id))), ..self },
                    Ok(self.project_tags.contains((p.id, t.id))),
                ),
            },
        }
    }

    pub open spec fn remove_tag_from_task(self, pname: Seq<char>, tname: Seq<char>, tag: Seq<char>) -> (EngineV, Result<bool, ErrorV>) {
        match self.get_task_by_name(pname, tname) {
            Err(e) => (self, Err(e)),
            Ok(task) => match self.get_tag_by_name(tag) {
                Err(e) => (self, Err(e)),
                Ok(t) => (
                    EngineV { task_tags: self.task_tags.filter(link_not((task.id, t.id))), ..self },
                    Ok(self.task_tags.contains((task.id, t.id))),
                ),
            },
        }
    }
}

pub open spec fn names_of(tags: Seq<&str>) -> Seq<Seq<char>> {
    tags.map_values(|t: &str| t@)
}

pub proof fn lemma_wf_push_tag(s: EngineV, t: TagV)
    requires
        s.wf(),
        s.tag_index(t.name) == -1,
        t.id == next_row_id(last_id_tags(s.tags)),
        t.id <= i64::MAX,
    ensures
        (EngineV { tags: s.tags.push(t), ..s }).wf(),
{
    let s2 = EngineV { tags: s.tags.push(t), ..s };
    lemma_first_index(s.tags, tag_named(t.name));
    assert forall|i: int, j: int| 0 <= i < j < s2.tags.len() implies s2.tags[i].id < s2.tags[j].id by {
        if j == s.tags.len() && i < s.tags.len() - 1 {
            assert(s.tags[i].id < s.tags[s.tags.len() - 1].id);
        }
    }
    assert forall|i: int, j: int| 0 <= i < j < s2.tags.len() implies s2.tags[i].name != s2.tags[j].name by {
        if j == s.tags.len() {
            assert(!tag_named(t.name)(s.tags[i]));
        }
    }
    assert forall|id: int| s.tag_exists(id) implies #[trigger] s2.tag_exists(id) by {
        let k = choose|k: int| 0 <= k < s.tags.len() && #[trigger] s.tags[k].id == id;
        assert(s2.tags[k].id == id);
    }
    assert forall|i: int| 0 <= i < s2.project_tags.len() implies s2.project_exists(
        #[trigger] s2.project_tags[i].0,
    ) && s2.tag_exists(s2.project_tags[i].1) by {
        assert(s.project_exists(s.project_tags[i].0));
        assert(s.tag_exists(s.project_tags[i].1));
    }
    assert forall|i: int| 0 <= i < s2.task_tags.len() implies s2.task_exists(
        #[trigger] s2.task_tags[i].0,
    ) && s2.tag_exists(s2.task_tags[i].1) by {
        assert(s.task_exists(s.task_tags[i].0));
        assert(s.tag_exists(s.task_tags[i].1));
    }
}

pub proof fn lemma_wf_link_project_tag(s: EngineV, pid: int, tid: int)
    requires
        s.wf(),
        s.project_exists(pid),
        s.tag_exists(tid),
    ensures
        s.link_project_tag(pid, tid).wf(),
{
    if !s.project_tags.contains((pid, tid)) {
        let s2 = s.link_project_tag(pid, tid);
        assert forall|i: int, j: int| 0 <= i < j < s2.project_tags.len() implies s2.project_tags[i]
            != s2.project_tags[j] by {
            if j == s.project_tags.len() {
                assert(s.project_tags[i] == s2.project_tags[i]);
            }
        }
        assert forall|i: int| 0 <= i < s2.project_tags.len() implies s2.project_exists(
            #[trigger] s2.project_tags[i].0,
        ) && s2.tag_exists(s2.project_tags[i].1) by {
            if i < s.project_tags.len() {
                assert(s.project_exists(s.project_tags[i].0));
            }
        }
    }
}

pub proof fn lemma_wf_link_task_tag(s: EngineV, task_id: int, tid: int)
    requires
        s.wf(),
        s.task_exists(task_id),
        s.tag_exists(tid),
    ensures
        s.link_task_tag(task_id, tid).wf(),
{
    if !s.task_tags.contains((task_id, tid)) {
        let s2 = s.link_task_tag(task_id, tid);
        assert forall|i: int, j: int| 0 <= i < j < s2.task_tags.len() implies s2.task_tags[i]
            != s2.task_tags[j] by {
            if j == s.task_tags.len() {
                assert(s.task_tags[i] == s2.task_tags[i]);
            }
        }
        assert forall|i: int| 0 <= i < s2.task_tags.len() implies s2.task_exists(
            #[trigger] s2.task_tags[i].0,
        ) && s2.tag_exists(s2.task_tags[i].1) by {
            if i < s.task_tags.len() {
                assert(s.task_exists(s.task_tags[i].0));
            }
        }
    }
}

pub proof fn lemma_wf_unlink(s: EngineV, pair: (int, int))
    requires
        s.wf(),
    ensures
        (EngineV { project_tags: s.project_tags.filter(link_not(pair)), ..s }).wf(),
        (EngineV { task_tags: s.task_tags.filter(link_not(pair)), ..s }).wf(),
{
    lemma_filter_members(s.project_tags, link_not(pair));
    lemma_filter_members(s.task_tags, link_not(pair));
    lemma_filter_pairwise(s.project_tags, link_not(pair), |a: (int, int), b: (int, int)| a != b);
    lemma_filter_pairwise(s.task_tags, link_not(pair), |a: (int, int), b: (int, int)| a != b);
    let pt = s.project_tags.filter(link_not(pair));
    let tt = s.task_tags.filter(link_not(pair));
    assert forall|i: int| 0 <= i < pt.len() implies s.project_exists(#[trigger] pt[i].0) && s.tag_exists(pt[i].1) by {
        let k = choose|k: int| 0 <= k < s.project_tags.len() && s.project_tags[k] == pt[i];
        assert(s.project_exists(s.project_tags[k].0));
    }
    assert forall|i: int| 0 <= i < tt.len() implies s.task_exists(#[trigger] tt[i].0) && s.tag_exists(tt[i].1) by {
        let k = choose|k: int| 0 <= k < s.task_tags.len() && s.task_tags[k] == tt[i];
        assert(s.task_exists(s.task_tags[k].0));
    }
}

/// Whether `(a, b)` is among the links.
pub(crate) fn has_link(v: &Vec<(i64, i64)>, a: i64, b: i64) -> (r: bool)
    ensures
        r == links_v(v@).contains((a as int, b as int)),
{
    let mut i: usize = 0;
    while i < v.len()
        invariant
            i <= v@.len(),
            forall|j: int| 0 <= j < i ==> links_v(v@)[j] != (a as int, b as int),
        decreases v@.len() - i,
    {
        if v[i].0 == a && v[i].1 == b {
            assert(links_v(v@)[i as int] == (a as int, b as int));
            return true;
        }
        i = i + 1;
    }
    false
}

/// The tags linked to `owner`, in table order.
fn tags_linked(tags: &Vec<Tag>, links: &Vec<(i64, i64)>, owner: i64) -> (r: Vec<Tag>)
    ensures
        r@.map_values(|t: Tag| t@) == tags@.map_values(|t: Tag| t@).filter(tag_linked(links_v(links@), owner as int)),
{
    let ghost tv = tags@.map_values(|t: Tag| t@);
    let ghost p = tag_linked(links_v(links@), owner as int);
    let mut r: Vec<Tag> = Vec::new();
    let mut i: usize = 0;
    proof {
        lemma_filter_all(tv, p);
        assert(r@.map_values(|t: Tag| t@) =~= Seq::<TagV>::empty());
    }
    while i < tags.len()
        invariant
            i <= tags@.len(),
            tv == tags@.map_values(|t: Tag| t@),
            p == tag_linked(links_v(links@), owner as int),
            r@.map_values(|t: Tag| t@) == tv.take(i as int).filter(p),
        decreases tags@.len() - i,
    {
        proof {
            lemma_filter_step(tv, p, i as int);
        }
        if has_link(links, owner, tags[i].id) {
            let c = tags[i].copy();
            proof {
                lemma_map_push(r@, c, |t: Tag| t@);
            }
            r.push(c);
        }
        i = i + 1;
    }
    proof {
        lemma_filter_all(tv, p);
    }
    r
}

impl Engine {
    pub(crate) fn find_tag(&self, name: &String) -> (r: Option<usize>)
        ensures
            match r {
                Some(i) => i < self.tags@.len() && i == self@.tag_index(name@),
                None => self@.tag_index(name@) == -1,
            },
    {
        let ghost p = tag_named(name@);
        let mut i: usize = 0;
        while i < self.tags.len()
            invariant
                i <= self.tags@.len(),
                p == tag_named(name@),
                forall|j: int| 0 <= j < i ==> !p(#[trigger] self@.tags[j]),
            decreases self.tags@.len() - i,
        {
            assert(self@.tags[i as int] == self.tags@[i as int]@);
            if self.tags[i].name == *name {
                proof {
                    lemma_first_index_is(self@.tags, p, i as int);
                }
                return Some(i);
            }
            i = i + 1;
        }
        proof {
            lemma_first_index_is(self@.tags, p, -1);
        }
        None
    }

    fn get_tag_by_name(&self, name: &str) -> (r: Result<Tag, StoreError>)
        ensures
            match r {
                Ok(t) => Ok(t@),
                Err(e) => Err(e@),
            } == self@.get_tag_by_name(name@),
    {
        let name_s = to_owned_string(name);
        match self.find_tag(&name_s) {
            Some(i) => Ok(self.tags[i].copy()),
            None => Err(StoreError::NotFound(name_s)),
        }
    }

    /// The tag with this name, made first if there is none.
    pub(crate) fn get_or_create_tag(&mut self, name: &str) -> (r: Result<Tag, StoreError>)
        requires
            old(self)@.wf(),
        ensures
            final(self)@.wf(),
            (final(self)@, match r {
                Ok(t) => Ok(t@),
                Err(e) => Err(e@),
            }) == old(self)@.get_or_create_tag(name@),
            r matches Ok(t) ==> final(self)@.tag_exists(t.id as int),
    {
        let name_s = to_owned_string(name);
        if let Some(i) = self.find_tag(&name_s) {
            proof {
                assert(self@.tags[i as int] == self.tags@[i as int]@);
            }
            return Ok(self.tags[i].copy());
        }
        let n = self.tags.len();
        let id: i64 = if n == 0 {
            1
        } else {
            let last = self.tags[n - 1].id;
            if last == i64::MAX {
                proof {
                    assert(self@.tags.last() == self.tags@[n - 1]@);
                }
                return Err(StoreError::Db(to_owned_string("database or disk is full")));
            }
            last + 1
        };
        let t = Tag { id, name: name_s };
        let c = t.copy();
        let ghost s0 = self@;
        let ghost old_tags = self.tags@;
        self.tags.push(t);
        proof {
            lemma_map_push(old_tags, c, |t: Tag| t@);
            assert(s0.tags.len() > 0 ==> s0.tags.last() == old_tags[n - 1]@);
            lemma_wf_push_tag(s0, c@);
            assert(self@ == EngineV { tags: s0.tags.push(c@), ..s0 });
            assert(self@.tags[n as int].id == c.id);
        }
        Ok(c)
    }

    fn link_project_tag(&mut self, pid: i64, tid: i64)
        requires
            old(self)@.wf(),
            old(self)@.project_exists(pid as int),
            old(self)@.tag_exists(tid as int),
        ensures
            final(self)@ == old(self)@.link_project_tag(pid as int, tid as int),
            final(self)@.wf(),
    {
        proof {
            lemma_wf_link_project_tag(self@, pid as int, tid as int);
        }
        if !has_link(&self.project_tags, pid, tid) {
            let ghost old_links = self.project_tags@;
            self.project_tags.push((pid, tid));
            proof {
                assert(links_v(self.project_tags@) =~= links_v(old_links).push((pid as int, tid as int)));
            }
        }
    }

    fn link_task_tag(&mut self, task_id: i64, tid: i64)
        requires
            old(self)@.wf(),
            old(self)@.task_exists(task_id as int),
            old(self)@.tag_exists(tid as int),
        ensures
            final(self)@ == old(self)@.link_task_tag(task_id as int, tid as int),
            final(self)@.wf(),
    {
        proof {
            lemma_wf_link_task_tag(self@, task_id as int, tid as int);
        }
        if !has_link(&self.task_tags, task_id, tid) {
            let ghost old_links = self.task_tags@;
            self.task_tags.push((task_id, tid));
            proof {
                assert(links_v(self.task_tags@) =~= links_v(old_links).push((task_id as int, tid as int)));
            }
        }
    }
    fn add_project_tags(&mut self, pid: i64, tags: &[&str]) -> (r: Result<(), StoreError>)
        requires
            old(self)@.wf(),
            old(self)@.project_exists(pid as int),
        ensures
            final(self)@.wf(),
            (final(self)@, match r {
                Ok(_) => Ok(()),
                Err(e) => Err(e@),
            }) == old(self)@.add_project_tags(pid as int, names_of(tags@)),
    {
        let ghost names = names_of(tags@);
        let ghost s0 = self@;
        let mut i: usize = 0;
        proof {
            assert(names.take(0) =~= Seq::<Seq<char>>::empty());
        }
        while i < tags.len()
            invariant
                i <= tags@.len(),
                names == names_of(tags@),
                s0 == old(self)@,
                self@.wf(),
                self@.project_exists(pid as int),
                (self@, Ok::<(), ErrorV>(())) == s0.add_project_tags(pid as int, names.take(i as int)),
            decreases tags@.len() - i,
        {
            proof {
                assert(names.take(i + 1).drop_last() =~= names.take(i as int));
                assert(names.take(i + 1).last() == tags@[i as int]@);
            }
            let t = match self.get_or_create_tag(tags[i]) {
                Ok(t) => t,
                Err(e) => {
                    proof {
                        assert(names.take(i + 1).drop_last() =~= names.take(i as int));
                        assert(s0.add_project_tags(pid as int, names.take(i + 1)) == (self@, Err::<(), ErrorV>(e@)));
                        lemma_add_project_tags_stops(s0, pid as int, names, i + 1);
                    }
                    return Err(e);
                },
            };
            self.link_project_tag(pid, t.id);
            i = i + 1;
        }
        proof {
            assert(names.take(tags@.len() as int) =~= names);
        }
        Ok(())
    }

    pub(crate) fn add_task_tags(&mut self, task_id: i64, tags: &[&str]) -> (r: Result<(), StoreError>)
        requires
            old(self)@.wf(),
            old(self)@.task_exists(task_id as int),
        ensures
            final(self)@.wf(),
            (final(self)@, match r {
                Ok(_) => Ok(()),
                Err(e) => Err(e@),
            }) == old(self)@.add_task_tags(task_id as int, names_of(tags@)),
    {
        let ghost names = names_of(tags@);
        let ghost s0 = self@;
        let mut i: usize = 0;
        proof {
            assert(names.take(0) =~= Seq::<Seq<char>>::empty());
        }
        while i < tags.len()
            invariant
                i <= tags@.len(),
                names == names_of(tags@),
                s0 == old(self)@,
                self@.wf(),
                self@.task_exists(task_id as int),
                (self@, Ok::<(), ErrorV>(())) == s0.add_task_tags(task_id as int, names.take(i as int)),
            decreases tags@.len() - i,
        {
            proof {
                assert(names.take(i + 1).drop_last() =~= names.take(i as int));
                assert(names.take(i + 1).last() == tags@[i as int]@);
            }
            let t = match self.get_or_create_tag(tags[i]) {
                Ok(t) => t,
                Err(e) => {
                    proof {
                        assert(names.take(i + 1).drop_last() =~= names.take(i as int));
                        assert(s0.add_task_tags(task_id as int, names.take(i + 1)) == (self@, Err::<(), ErrorV>(e@)));
                        lemma_add_task_tags_stops(s0, task_id as int, names, i + 1);
                    }
                    return Err(e);
                },
            };
            self.link_task_tag(task_id, t.id);
            i = i + 1;
        }
        proof {
            assert(names.take(tags@.len() as int) =~= names);
        }
        Ok(())
    }

    /// Links each tag to the project, making the tags that do not exist yet.
    pub fn add_tags_to_project(&mut self, project_name: &str, tags: &[&str]) -> (r: Result<(), StoreError>)
        requires
            old(self)@.wf(),
        ensures
            final(self)@.wf(),
            (final(self)@, match r {
                Ok(_) => Ok(()),
                Err(e) => Err(e@),
            }) == old(self)@.add_tags_to_project(project_name@, names_of(tags@)),
    {
        let name_s = to_owned_string(project_name);
        match self.find_project(&name_s) {
            None => Err(StoreError::NotFound(name_s)),
            Some(i) => {
                let pid = self.projects[i].id;
                proof {
                    assert(self@.projects[i as int].id == pid);
                }
                self.add_project_tags(pid, tags)
            },
        }
    }

    /// Links each tag to the task `get_task_by_name` picks, making the tags that do not exist yet.
    pub fn add_tags_to_task(&mut self, project_name: &str, task_name: &str, tags: &[&str]) -> (r: Result<(), StoreError>)
        requires
            old(self)@.wf(),
        ensures
            final(self)@.wf(),
            (final(self)@, match r {
                Ok(_) => Ok(()),
                Err(e) => Err(e@),
            }) == old(self)@.add_tags_to_task(project_name@, task_name@, names_of(tags@)),
    {
        let tname = to_owned_string(task_name);
        match self.find_task_by_name(project_name, &tname) {
            None => Err(StoreError::NotFound(tname)),
            Some(i) => {
                let tid = self.tasks[i].id;
                proof {
                    assert(self@.tasks[i as int].id == tid);
                }
                self.add_task_tags(tid, tags)
            },
        }
    }

    /// The tags of the project with this name, in id order (none if there is no such project).
    pub fn get_tags_for_project(&self, project_name: &str) -> (r: Result<Vec<Tag>, StoreError>)
        ensures
            r matches Ok(v) && v@.map_values(|t: Tag| t@) == self@.get_tags_for_project(project_name@),
    {
        let name_s = to_owned_string(project_name);
        match self.find_project(&name_s) {
            None => {
                let v: Vec<Tag> = Vec::new();
                proof {
                    assert(v@.map_values(|t: Tag| t@) =~= Seq::<TagV>::empty());
                }
                Ok(v)
            },
            Some(i) => {
                proof {
                    assert(self@.projects[i as int].id == self.projects@[i as int].id);
                }
                Ok(tags_linked(&self.tags, &self.project_tags, self.projects[i].id))
            },
        }
    }

    /// The tags of the task with this id, in id order.
    pub fn get_tags_for_task_by_id(&self, task_id: i64) -> (r: Result<Vec<Tag>, StoreError>)
        ensures
            r matches Ok(v) && v@.map_values(|t: Tag| t@) == self@.tags_of_task(task_id as int),
    {
        Ok(tags_linked(&self.tags, &self.task_tags, task_id))
    }

    /// The tags of every task with this name in the project with this name.
    pub fn get_tags_for_task(&self, project_name: &str, task_name: &str) -> (r: Result<Vec<Tag>, StoreError>)
        ensures
            r matches Ok(v) && v@.map_values(|t: Tag| t@) == self@.get_tags_for_task(project_name@, task_name@),
    {
        let pname = to_owned_string(project_name);
        let tname = to_owned_string(task_name);
        let pi = self.find_project(&pname);
        let mut r: Vec<Tag> = Vec::new();
        let mut i: usize = 0;
        proof {
            assert(self@.tasks.take(0) =~= Seq::<TaskV>::empty());
            assert(r@.map_values(|t: Tag| t@) =~= Seq::<TagV>::empty());
        }
        while i < self.tasks.len()
            invariant
                i <= self.tasks@.len(),
                pname@ == project_name@,
                tname@ == task_name@,
                match pi {
                    Some(k) => k < self.projects@.len() && k == self@.project_index(project_name@),
                    None => self@.project_index(project_name@) == -1,
                },
                r@.map_values(|t: Tag| t@) == self@.tags_of_matching_tasks(self@.tasks.take(i as int), project_name@, task_name@),
            decreases self.tasks@.len() - i,
        {
            proof {
                assert(self@.tasks.take(i + 1).drop_last() =~= self@.tasks.take(i as int));
                assert(self@.tasks.take(i + 1).last() == self.tasks@[i as int]@);
            }
            let matches = match pi {
                Some(k) => self.tasks[i].name == tname && self.tasks[i].project_id == self.projects[k].id,
                None => false,
            };
            if matches {
                let more = tags_linked(&self.tags, &self.task_tags, self.tasks[i].id);
                let ghost before = r@;
                let mut j: usize = 0;
                while j < more.len()
                    invariant
                        j <= more@.len(),
                        r@.map_values(|t: Tag| t@) == before.map_values(|t: Tag| t@) + more@.take(j as int).map_values(|t: Tag| t@),
                    decreases more@.len() - j,
                {
                    let c = more[j].copy();
                    proof {
                        lemma_map_push(r@, c, |t: Tag| t@);
                        assert(more@.take(j + 1).map_values(|t: Tag| t@) =~= more@.take(j as int).map_values(|t: Tag| t@).push(c@));
                    }
                    r.push(c);
                    j = j + 1;
                }
                proof {
                    assert(more@.take(more@.len() as int) =~= more@);
                }
            } else {
                proof {
                    assert(r@.map_values(|t: Tag| t@) =~= r@.map_values(|t: Tag| t@) + Seq::<TagV>::empty());
                }
            }
            i = i + 1;
        }
        proof {
            assert(self@.tasks.take(self@.tasks.len() as int) =~= self@.tasks);
        }
        Ok(r)
    }

    /// Unlinks a tag from the project. Whether it was linked.
    pub fn remove_tag_from_project(&mut self, project_name: &str, tag_name: &str) -> (r: Result<bool, StoreError>)
        requires
            old(self)@.wf(),
        ensures
            final(self)@.wf(),
            (final(self)@, match r {
                Ok(b) => Ok(b),
                Err(e) => Err(e@),
            }) == old(self)@.remove_tag_from_project(project_name@, tag_name@),
    {
        let p = match self.get_project_by_name(project_name) {
            Ok(p) => p,
            Err(e) => return Err(e),
        };
        let t = match self.get_tag_by_name(tag_name) {
            Ok(t) => t,
            Err(e) => return Err(e),
        };
        let found = has_link(&self.project_tags, p.id, t.id);
        let ghost s0 = self@;
        self.project_tags = retain_links_without(&self.project_tags, p.id, t.id);
        proof {
            lemma_wf_unlink(s0, (p.id as int, t.id as int));
            assert(self@ == EngineV { project_tags: s0.project_tags.filter(link_not((p.id as int, t.id as int))), ..s0 });
        }
        Ok(found)
    }

    /// Unlinks a tag from the task `get_task_by_name` picks. Whether it was linked.
    pub fn remove_tag_from_task(&mut self, project_name: &str, task_name: &str, tag_name: &str) -> (r: Result<bool, StoreError>)
        requires
            old(self)@.wf(),
        ensures
            final(self)@.wf(),
            (final(self)@, match r {
                Ok(b) => Ok(b),
                Err(e) => Err(e@),
            }) == old(self)@.remove_tag_from_task(project_name@, task_name@, tag_name@),
    {
        let task = match self.get_task_by_name(project_name, task_name) {
            Ok(t) => t,
            Err(e) => return Err(e),
        };
        let t = match self.get_tag_by_name(tag_name) {
            Ok(t) => t,
            Err(e) => return Err(e),
        };
        let found = has_link(&self.task_tags, task.id, t.id);
        let ghost s0 = self@;
        self.task_tags = retain_links_without(&self.task_tags, task.id, t.id);
        proof {
            lemma_wf_unlink(s0, (task.id as int, t.id as int));
            assert(self@ == EngineV { task_tags: s0.task_tags.filter(link_not((task.id as int, t.id as int))), ..s0 });
        }
        Ok(found)
    }
}

pub proof fn lemma_add_project_tags_stops(s: EngineV, pid: int, names: Seq<Seq<char>>, k: int)
    requires
        0 <= k <= names.len(),
        s.add_project_tags(pid, names.take(k)).1 is Err,
    ensures
        s.add_project_tags(pid, names) == s.add_project_tags(pid, names.take(k)),
    decreases names.len(),
{
    if names.len() > k {
        assert(names.drop_last().take(k) =~= names.take(k));
        lemma_add_project_tags_stops(s, pid, names.drop_last(), k);
    } else {
        assert(names.take(k) =~= names);
    }
}

pub proof fn lemma_add_task_tags_stops(s: EngineV, tid: int, names: Seq<Seq<char>>, k: int)
    requires
        0 <= k <= names.len(),
        s.add_task_tags(tid, names.take(k)).1 is Err,
    ensures
        s.add_task_tags(tid, names) == s.add_task_tags(tid, names.take(k)),
    decreases names.len(),
{
    if names.len() > k {
        assert(names.drop_last().take(k) =~= names.take(k));
        lemma_add_task_tags_stops(s, tid, names.drop_last(), k);
    } else {
        assert(names.take(k) =~= names);
    }
}

} // verus!
