//! The task-list component: a user owns an ordered list of numbered tasks.
//! Task numbers always run 1, 2, ... in list order; removing a task
//! renumbers the remainder so the numbering stays dense.
use vstd::prelude::*;

verus! {

/// One task: a dense 1-based number, a description, and a done flag.
pub struct Task {
    pub id: u32,
    pub description: String,
    pub completed: bool,
}

/// Whether some task in `ts` carries the number `id`.
pub open spec fn has_task(ts: Seq<Task>, id: u32) -> bool {
    exists|j: int| 0 <= j < ts.len() && (#[trigger] ts[j]).id == id
}

/// Whether `i` is the first position in `ts` whose task carries `id`.
pub open spec fn is_first_task_with(ts: Seq<Task>, id: u32, i: int) -> bool {
    &&& 0 <= i < ts.len()
    &&& ts[i].id == id
    &&& forall|j: int| 0 <= j < i ==> (#[trigger] ts[j]).id != id
}

/// The tasks of `ts` whose number is not `id`, in order.
pub open spec fn kept_tasks(ts: Seq<Task>, id: u32) -> Seq<Task>
    decreases ts.len(),
{
    if ts.len() == 0 {
        Seq::empty()
    } else if ts.last().id != id {
        kept_tasks(ts.drop_last(), id).push(ts.last())
    } else {
        kept_tasks(ts.drop_last(), id)
    }
}

/// `ts` with every task renumbered to its 1-based position.
pub open spec fn renumbered(ts: Seq<Task>) -> Seq<Task> {
    Seq::new(
        ts.len(),
        |i: int| (Task { id: (i + 1) as u32, description: ts[i].description, completed: ts[i].completed }),
    )
}

/// A user account: credentials and the user's task list.
pub struct User {
    pub username: String,
    pub password: String,
    pub tasks: Vec<Task>,
}

impl User {
    /// A fresh account with the given credentials and no tasks.
    pub fn new(username: String, password: String) -> (u: User)
        ensures
            u.username == username,
            u.password == password,
            u.tasks@ == Seq::<Task>::empty(),
    {
        let u = User { username, password, tasks: Vec::new() };
        proof {
            assert(u.tasks@ =~= Seq::<Task>::empty());
        }
        u
    }

    /// True exactly when the given password matches the stored one.
    pub fn authenticate(&self, password: &str) -> (r: bool)
        ensures
            r == (password@ == self.password@),
    {
        let p = password.to_string();
        p == self.password
    }

    /// Appends a new, not yet completed task numbered one past the current
    /// last position.
    pub fn add_task(&mut self, description: String)
        requires
            old(self).tasks@.len() < u32::MAX,
        ensures
            final(self).username == old(self).username,
            final(self).password == old(self).password,
            final(self).tasks@ == old(self).tasks@.push(
                (Task {
                    id: (old(self).tasks@.len() + 1) as u32,
                    description: description,
                    completed: false,
                }),
            ),
    {
        let id = self.tasks.len() as u32 + 1;
        self.tasks.push(Task { id, description, completed: false });
    }

    /// Gives the first task numbered `id`, if any, the new description;
    /// without such a task the list is unchanged.
    pub fn edit_task(&mut self, id: u32, new_description: String)
        ensures
            final(self).username == old(self).username,
            final(self).password == old(self).password,
            !has_task(old(self).tasks@, id) ==> final(self).tasks@ == old(self).tasks@,
            has_task(old(self).tasks@, id) ==> exists|i: int|
                #![auto]
                {
                    &&& is_first_task_with(old(self).tasks@, id, i)
                    &&& final(self).tasks@ == old(self).tasks@.update(
                        i,
                        (Task {
                            id: id,
                            description: new_description,
                            completed: old(self).tasks@[i].completed,
                        }),
                    )
                },
    {
        let ghost orig = self.tasks@;
        let mut k: usize = 0;
        while k < self.tasks.len()
            invariant
                self.username == old(self).username,
                self.password == old(self).password,
                orig == old(self).tasks@,
                self.tasks@ == orig,
                k <= orig.len(),
                forall|j: int| 0 <= j < k ==> (#[trigger] orig[j]).id != id,
            decreases orig.len() - k,
        {
            if self.tasks[k].id == id {
                let mut t = self.tasks.remove(k);
                t.description = new_description;
                self.tasks.insert(k, t);
                proof {
                    assert(is_first_task_with(orig, id, k as int));
                    assert(has_task(orig, id));
                    assert(self.tasks@ =~= orig.update(
                        k as int,
                        (Task {
                            id: id,
                            description: new_description,
                            completed: orig[k as int].completed,
                        }),
                    ));
                }
                return ;
            }
            k = k + 1;
        }
    }

    /// Drops every task numbered `id` and renumbers the remaining tasks to
    /// their 1-based positions, as the dense numbering asks.
    pub fn remove_task(&mut self, id: u32)
        requires
            old(self).tasks@.len() <= u32::MAX,
        ensures
            final(self).username == old(self).username,
            final(self).password == old(self).password,
            final(self).tasks@ == renumbered(kept_tasks(old(self).tasks@, id)),
    {
        let ghost orig = self.tasks@;
        let mut kept: Vec<Task> = Vec::new();
        proof {
            assert(kept@ =~= renumbered(kept_tasks(orig.take(0), id)));
        }
        while self.tasks.len() > 0
            invariant
                self.username == old(self).username,
                self.password == old(self).password,
                orig == old(self).tasks@,
                orig.len() <= u32::MAX,
                self.tasks@.len() <= orig.len(),
                self.tasks@ == orig.skip(orig.len() - self.tasks@.len()),
                kept@ == renumbered(kept_tasks(orig.take(orig.len() - self.tasks@.len()), id)),
                kept@.len() <= orig.len() - self.tasks@.len(),
            decreases self.tasks@.len(),
        {
            let ghost k = orig.len() - self.tasks@.len();
            let t = self.tasks.remove(0);
            proof {
                assert(t == orig[k]);
                assert(self.tasks@ =~= orig.skip(k + 1));
                assert(orig.take(k + 1).drop_last() =~= orig.take(k));
                assert(orig.take(k + 1).last() == orig[k]);
            }
            if t.id != id {
                let n = kept.len() as u32 + 1;
                let mut t2 = t;
                t2.id = n;
                kept.push(t2);
                proof {
                    let ks = kept_tasks(orig.take(k), id);
                    assert(kept_tasks(orig.take(k + 1), id) == ks.push(orig[k]));
                    assert(kept@ =~= renumbered(ks.push(orig[k])));
                }
            } else {
                proof {
                    assert(kept_tasks(orig.take(k + 1), id) == kept_tasks(orig.take(k), id));
                }
            }
        }
        proof {
            assert(orig.take(orig.len() - self.tasks@.len()) =~= orig);
        }
        self.tasks = kept;
    }

    /// Marks the first task numbered `id`, if any, as completed; without
    /// such a task the list is unchanged.
    pub fn mark_task_completed(&mut self, id: u32)
        ensures
            final(self).username == old(self).username,
            final(self).password == old(self).password,
            !has_task(old(self).tasks@, id) ==> final(self).tasks@ == old(self).tasks@,
            has_task(old(self).tasks@, id) ==> exists|i: int|
                #![auto]
                {
                    &&& is_first_task_with(old(self).tasks@, id, i)
                    &&& final(self).tasks@ == old(self).tasks@.update(
                        i,
                        (Task {
                            id: id,
                            description: old(self).tasks@[i].description,
                            completed: true,
                        }),
                    )
                },
    {
        let ghost orig = self.tasks@;
        let mut k: usize = 0;
        while k < self.tasks.len()
            invariant
                self.username == old(self).username,
                self.password == old(self).password,
                orig == old(self).tasks@,
                self.tasks@ == orig,
                k <= orig.len(),
                forall|j: int| 0 <= j < k ==> (#[trigger] orig[j]).id != id,
            decreases orig.len() - k,
        {
            if self.tasks[k].id == id {
                let mut t = self.tasks.remove(k);
                t.completed = true;
                self.tasks.insert(k, t);
                proof {
                    assert(is_first_task_with(orig, id, k as int));
                    assert(has_task(orig, id));
                    assert(self.tasks@ =~= orig.update(
                        k as int,
                        (Task {
                            id: id,
                            description: orig[k as int].description,
                            completed: true,
                        }),
                    ));
                }
                return ;
            }
            k = k + 1;
        }
    }
}

} // verus!
