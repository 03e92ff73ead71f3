//! The messages between the tile cache, the dispatcher and the workers, and
//! the dispatcher's registry of in-flight work.

use crate::render::{MandelbrotSetProperties, TileImage};
use crate::tile::TileId;
use vstd::prelude::*;

verus! {

/// The only values that cross between the foreground, the dispatcher and the workers.
#[derive(Clone, Debug)]
pub enum ThreadMessage {
    /// Start computing a tile with these parameters, unless that is already under way.
    CreateWork(TileId, MandelbrotSetProperties),
    /// Ask whether the work on a tile has finished.
    Poll(TileId),
    /// The finished image of a tile.
    Completed(TileId, TileImage),
    /// The work on a tile has not finished, or there is none.
    NotReady(TileId),
}

/// The tiles of a registry, in order of registration.
pub open spec fn ids_of<W>(s: Seq<(TileId, W)>) -> Seq<TileId> {
    s.map_values(|e: (TileId, W)| e.0)
}

/// `id` stands in `ids` exactly once.
pub open spec fn exactly_once(ids: Seq<TileId>, id: TileId) -> bool {
    exists|i: int|
        0 <= i < ids.len() && ids[i] == id && forall|j: int|
            0 <= j < ids.len() && #[trigger] ids[j] == id ==> j == i
}

/// What a request to create work on `id` does to a registry: when no worker
/// is registered for `id`, one is spawned and registered last; otherwise
/// nothing happens.
pub open spec fn create_step<W>(
    pre: Seq<(TileId, W)>,
    post: Seq<(TileId, W)>,
    id: TileId,
    spawned: bool,
) -> bool {
    &&& spawned == !ids_of(pre).contains(id)
    &&& spawned ==> post.len() == pre.len() + 1 && post.drop_last() == pre && post.last().0 == id
    &&& !spawned ==> post == pre
}

/// Requesting work on a tile twice before it completes starts one worker:
/// the second request spawns nothing and the tile is registered once.
pub proof fn lemma_create_work_is_idempotent<W>(
    s0: Seq<(TileId, W)>,
    s1: Seq<(TileId, W)>,
    s2: Seq<(TileId, W)>,
    id: TileId,
    first: bool,
    second: bool,
)
    requires
        ids_of(s0).no_duplicates(),
        create_step(s0, s1, id, first),
        create_step(s1, s2, id, second),
    ensures
        !second,
        s2 == s1,
        exactly_once(ids_of(s2), id),
{
    if first {
        assert(ids_of(s1) =~= ids_of(s0).push(id));
        assert(ids_of(s1)[s0.len() as int] == id);
        assert(ids_of(s1).contains(id));
        assert forall|j: int| 0 <= j < ids_of(s1).len() && #[trigger] ids_of(s1)[j] == id implies j
            == s0.len() by {
            if j < s0.len() {
                assert(ids_of(s0)[j] == id);
            }
        }
    } else {
        let i = ids_of(s0).index_of(id);
        assert(ids_of(s0)[i] == id);
        assert forall|j: int| 0 <= j < ids_of(s1).len() && #[trigger] ids_of(s1)[j] == id implies j
            == i by {
            assert(ids_of(s0)[j] == ids_of(s0)[i]);
        }
    }
}

/// What a poll of `id` through `ask` does to a registry and answers: for an
/// unregistered tile `NotReady` and no change; for a registered one, when its
/// worker hands back an image, `Completed` with that image and the worker
/// unregistered, else `NotReady` and no change.
pub open spec fn polled<W, F: FnOnce(&W) -> Option<TileImage>>(
    pre: Seq<(TileId, W)>,
    post: Seq<(TileId, W)>,
    id: TileId,
    ask: F,
    r: ThreadMessage,
) -> bool {
    if !ids_of(pre).contains(id) {
        r == ThreadMessage::NotReady(id) && post == pre
    } else {
        exists|i: int|
            0 <= i < pre.len() && #[trigger] pre[i].0 == id && match r {
                ThreadMessage::Completed(t, image) => t == id && ask.ensures(
                    (&pre[i].1,),
                    Some(image),
                ) && post == pre.remove(i),
                ThreadMessage::NotReady(t) => t == id && ask.ensures((&pre[i].1,), None) && post
                    == pre,
                _ => false,
            }
    }
}

/// The registry of in-flight work, owned by the foreground: at most one
/// worker handle per tile.
pub struct Dispatcher<W> {
    workers: Vec<(TileId, W)>,
}

impl<W> Dispatcher<W> {
    /// The registered tiles with their workers, in order of registration.
    pub closed spec fn entries(&self) -> Seq<(TileId, W)> {
        self.workers@
    }

    /// No tile is registered twice.
    pub open spec fn wf(&self) -> bool {
        ids_of(self.entries()).no_duplicates()
    }

    /// An empty registry.
    pub fn new() -> (r: Self)
        ensures
            r.wf(),
            r.entries().len() == 0,
    {
        Dispatcher { workers: Vec::new() }
    }

    /// The number of tiles with work in flight.
    pub fn len(&self) -> (r: usize)
        ensures
            r == self.entries().len(),
    {
        self.workers.len()
    }

    /// Where `id` is registered, if it is.
    fn position(&self, id: TileId) -> (r: Option<usize>)
        ensures
            r matches Some(i) ==> i < self.entries().len() && self.entries()[i as int].0 == id,
            r is None ==> !ids_of(self.entries()).contains(id),
    {
        let mut i: usize = 0;
        while i < self.workers.len()
            invariant
                i <= self.workers.len(),
                forall|j: int| 0 <= j < i ==> self.entries()[j].0 != id,
            decreases self.workers.len() - i,
        {
            if self.workers[i].0 == id {
                return Some(i);
            }
            i = i + 1;
        }
        proof {
            assert forall|j: int| 0 <= j < ids_of(self.entries()).len() implies ids_of(
                self.entries(),
            )[j] != id by {
                assert(ids_of(self.entries())[j] == self.entries()[j].0);
            }
        }
        None
    }

    /// Whether work on `id` is in flight.
    pub fn is_registered(&self, id: TileId) -> (r: bool)
        ensures
            r == ids_of(self.entries()).contains(id),
    {
        match self.position(id) {
            Some(i) => {
                proof {
                    assert(ids_of(self.entries())[i as int] == id);
                }
                true
            },
            None => false,
        }
    }

    /// Starts work on `id` with `properties` through `spawn`, unless a worker
    /// for `id` is registered already. Returns whether a worker was spawned.
    pub fn create_work<F: FnOnce(TileId, MandelbrotSetProperties) -> W>(
        &mut self,
        id: TileId,
        properties: MandelbrotSetProperties,
        spawn: F,
    ) -> (spawned: bool)
        requires
            old(self).wf(),
            spawn.requires((id, properties)),
        ensures
            final(self).wf(),
            create_step(old(self).entries(), final(self).entries(), id, spawned),
            spawned ==> spawn.ensures((id, properties), final(self).entries().last().1),
    {
        if self.is_registered(id) {
            false
        } else {
            let worker = spawn(id, properties);
            self.workers.push((id, worker));
            proof {
                assert(ids_of(self.entries()) =~= ids_of(old(self).entries()).push(id));
                assert(self.entries().drop_last() =~= old(self).entries());
            }
            true
        }
    }

    /// Polls the worker for `id` through `ask`, which hands back the image if
    /// the worker has finished. A finished worker is unregistered and its
    /// image relayed; an unfinished or unknown one gives `NotReady`.
    pub fn poll<F: FnOnce(&W) -> Option<TileImage>>(&mut self, id: TileId, ask: F) -> (r:
        ThreadMessage)
        requires
            old(self).wf(),
            forall|w: &W| ask.requires((w,)),
        ensures
            final(self).wf(),
            polled(old(self).entries(), final(self).entries(), id, ask, r),
    {
        match self.position(id) {
            None => ThreadMessage::NotReady(id),
            Some(i) => {
                proof {
                    assert(ids_of(self.entries())[i as int] == id);
                }
                let reply = ask(&self.workers[i].1);
                match reply {
                    Some(image) => {
                        self.workers.remove(i);
                        proof {
                            let pre = ids_of(old(self).entries());
                            assert(ids_of(self.entries()) =~= pre.remove(i as int));
                            assert forall|a: int, b: int|
                                0 <= a < b < ids_of(self.entries()).len() implies ids_of(
                                    self.entries(),
                                )[a] != ids_of(self.entries())[b] by {
                                if a >= i {
                                    assert(ids_of(self.entries())[a] == pre[a + 1]);
                                }
                                if b >= i {
                                    assert(ids_of(self.entries())[b] == pre[b + 1]);
                                } else {
                                    assert(ids_of(self.entries())[b] == pre[b]);
                                }
                            }
                        }
                        ThreadMessage::Completed(id, image)
                    },
                    None => ThreadMessage::NotReady(id),
                }
            },
        }
    }

    /// Handles one message from the foreground: `CreateWork` goes to
    /// `create_work` and has no answer, `Poll` goes to `poll` and is answered;
    /// any other message is ignored.
    pub fn dispatch<
        S: FnOnce(TileId, MandelbrotSetProperties) -> W,
        A: FnOnce(&W) -> Option<TileImage>,
    >(&mut self, message: ThreadMessage, spawn: S, ask: A) -> (r: Option<ThreadMessage>)
        requires
            old(self).wf(),
            forall|id: TileId, p: MandelbrotSetProperties| spawn.requires((id, p)),
            forall|w: &W| ask.requires((w,)),
        ensures
            final(self).wf(),
            message matches ThreadMessage::CreateWork(id, p) ==> r is None && exists|spawned: bool|
                create_step(old(self).entries(), final(self).entries(), id, spawned),
            message matches ThreadMessage::Poll(id) ==> r is Some && polled(
                old(self).entries(),
                final(self).entries(),
                id,
                ask,
                r->Some_0,
            ),
            (message is Completed || message is NotReady) ==> r is None && final(self).entries()
                == old(self).entries(),
    {
        match message {
            ThreadMessage::CreateWork(id, properties) => {
                self.create_work(id, properties, spawn);
                None
            },
            ThreadMessage::Poll(id) => Some(self.poll(id, ask)),
            _ => None,
        }
    }
}

} // verus!
