//! The hard-link resolver.
//!
//! During a filesystem-traversal write, entries that share a device and
//! inode are one file with several names, and the archive must carry one
//! full-content member plus link-reference members.  The resolver is
//! keyed by device and inode and follows one of two strategies: data
//! with the first name — later names become references to it at once —
//! or data with the last name, under which an entry is withheld until a
//! later name releases its predecessor as a reference.  Whatever is
//! still withheld when the session closes must be flushed before the
//! write handle goes; [`LinkResolver::flush`] hands it out.

use vstd::prelude::*;

use crate::disk::FsEntry;
use crate::disk::spec_blocks;
use crate::disk::FsModel;
use crate::entry::EntryModel;
use crate::entry::clone_bytes;

verus! {

/// Which member of a link group carries the file's content.
#[derive(Clone, Copy, Debug, PartialEq, Eq, Structural)]
pub enum LinkStrategy {
    /// The first name met carries the content; later names come out as
    /// references immediately.
    WithFirst,
    /// The last name met carries the content; earlier names are withheld
    /// and released as references when their successor arrives.
    WithLast,
}

/// A link group that has been seen: its identity and the path that
/// carries, or will carry, the content.
pub struct LinkRecord {
    pub dev: u64,
    pub ino: u64,
    pub path: Vec<u8>,
}

/// The entry `e` turned into a link reference to `target`: no payload,
/// no blocks, the hard-link field naming the target.
pub open spec fn spec_link_ref(e: FsModel, target: Seq<u8>) -> FsModel {
    FsModel {
        meta: EntryModel { size: 0, hardlink: target, ..e.meta },
        blocks: Seq::empty(),
        ..e
    }
}

/// The group key of `m` among the groups seen so far, if any.
pub open spec fn spec_seen_lookup(seen: Seq<(u64, u64, Seq<u8>)>, dev: u64, ino: u64) -> Option<
    Seq<u8>,
>
    decreases seen.len(),
{
    if seen.len() == 0 {
        Option::None
    } else if seen[0].0 == dev && seen[0].1 == ino {
        Option::Some(seen[0].2)
    } else {
        spec_seen_lookup(seen.skip(1), dev, ino)
    }
}

/// The index of the pending entry with the given key, if any.
pub open spec fn spec_pending_find(pending: Seq<FsModel>, dev: u64, ino: u64) -> Option<int> {
    if exists|i: int|
        0 <= i < pending.len() && (#[trigger] pending[i]).dev == dev && pending[i].ino == ino {
        Option::Some(
            choose|i: int|
                0 <= i < pending.len() && (#[trigger] pending[i]).dev == dev && pending[i].ino
                    == ino,
        )
    } else {
        Option::None
    }
}

/// What one linkify step does: the resolver state afterwards and the
/// entry it releases, if any.
pub open spec fn spec_linkify(
    strategy: LinkStrategy,
    seen: Seq<(u64, u64, Seq<u8>)>,
    pending: Seq<FsModel>,
    e: FsModel,
) -> (Seq<(u64, u64, Seq<u8>)>, Seq<FsModel>, Option<FsModel>) {
    if e.nlink <= 1 {
        (seen, pending, Option::Some(e))
    } else {
        match spec_seen_lookup(seen, e.dev, e.ino) {
            Option::Some(target) => (seen, pending, Option::Some(spec_link_ref(e, target))),
            Option::None => match strategy {
                LinkStrategy::WithFirst => (
                    seen.push((e.dev, e.ino, e.meta.path)),
                    pending,
                    Option::Some(e),
                ),
                LinkStrategy::WithLast => match spec_pending_find(pending, e.dev, e.ino) {
                    Option::Some(i) => (
                        seen,
                        pending.update(i, e),
                        Option::Some(spec_link_ref(pending[i], e.meta.path)),
                    ),
                    Option::None => (seen, pending.push(e), Option::None),
                },
            },
        }
    }
}

/// The two-pass hard-link resolver, keyed by device and inode.
pub struct LinkResolver {
    strategy: LinkStrategy,
    seen: Vec<LinkRecord>,
    pending: Vec<FsEntry>,
}

impl LinkResolver {
    /// The strategy in force.
    pub closed spec fn strategy_model(&self) -> LinkStrategy {
        self.strategy
    }

    /// The groups seen so far, with the path carrying the content.
    pub closed spec fn seen_model(&self) -> Seq<(u64, u64, Seq<u8>)> {
        self.seen@.map_values(|r: LinkRecord| (r.dev, r.ino, r.path@))
    }

    /// The entries withheld, in arrival order.
    pub closed spec fn pending_model(&self) -> Seq<FsModel> {
        self.pending@.map_values(|e: FsEntry| e@)
    }

    /// A fresh resolver: data with the first name, nothing seen, nothing
    /// withheld.
    pub fn new() -> (r: LinkResolver)
        ensures
            r.strategy_model() == LinkStrategy::WithFirst,
            r.seen_model() == Seq::<(u64, u64, Seq<u8>)>::empty(),
            r.pending_model() == Seq::<FsModel>::empty(),
    {
        let r = LinkResolver { strategy: LinkStrategy::WithFirst, seen: Vec::new(), pending: Vec::new() };
        proof {
            assert(r.seen_model() =~= Seq::<(u64, u64, Seq<u8>)>::empty());
            assert(r.pending_model() =~= Seq::<FsModel>::empty());
        }
        r
    }

    /// Picks the strategy.  Set it before the first entry goes through.
    pub fn set_strategy(&mut self, strategy: LinkStrategy)
        ensures
            final(self).strategy_model() == strategy,
            final(self).seen_model() == old(self).seen_model(),
            final(self).pending_model() == old(self).pending_model(),
    {
        self.strategy = strategy;
    }

    /// The index of the seen group with this key, if any.
    fn find_seen(&self, dev: u64, ino: u64) -> (r: Option<usize>)
        ensures
            match r {
                Option::Some(i) => {
                    &&& 0 <= i < self.seen_model().len()
                    &&& spec_seen_lookup(self.seen_model(), dev, ino) == Option::Some(
                        self.seen_model()[i as int].2,
                    )
                },
                Option::None => spec_seen_lookup(self.seen_model(), dev, ino) is None,
            },
    {
        let mut i: usize = 0;
        proof {
            assert(self.seen_model().skip(0) =~= self.seen_model());
        }
        while i < self.seen.len()
            invariant
                i <= self.seen@.len(),
                spec_seen_lookup(self.seen_model(), dev, ino) == spec_seen_lookup(
                    self.seen_model().skip(i as int),
                    dev,
                    ino,
                ),
            decreases self.seen@.len() - i,
        {
            proof {
                assert(self.seen_model().skip(i as int)[0] == self.seen_model()[i as int]);
            }
            if self.seen[i].dev == dev && self.seen[i].ino == ino {
                return Some(i);
            }
            proof {
                assert(self.seen_model().skip(i as int).skip(1) =~= self.seen_model().skip(i + 1));
            }
            i = i + 1;
        }
        None
    }

    /// The index of the pending entry with this key, if any.
    fn find_pending(&self, dev: u64, ino: u64) -> (r: Option<usize>)
        ensures
            match r {
                Option::Some(i) => {
                    &&& 0 <= i < self.pending_model().len()
                    &&& self.pending_model()[i as int].dev == dev
                    &&& self.pending_model()[i as int].ino == ino
                    &&& spec_pending_find(self.pending_model(), dev, ino) is Some
                },
                Option::None => spec_pending_find(self.pending_model(), dev, ino) is None,
            },
    {
        let mut i: usize = 0;
        while i < self.pending.len()
            invariant
                i <= self.pending@.len(),
                forall|j: int|
                    0 <= j < i ==> !((#[trigger] self.pending_model()[j]).dev == dev
                        && self.pending_model()[j].ino == ino),
            decreases self.pending@.len() - i,
        {
            if self.pending[i].dev == dev && self.pending[i].ino == ino {
                return Some(i);
            }
            i = i + 1;
        }
        None
    }
}

impl LinkResolver {
    /// Well-formed: at most one withheld entry per device-inode key.
    pub open spec fn wf(&self) -> bool {
        forall|i: int, j: int|
            0 <= i < j < self.pending_model().len() ==> !((#[trigger] self.pending_model()[i]).dev
                == (#[trigger] self.pending_model()[j]).dev && self.pending_model()[i].ino
                == self.pending_model()[j].ino)
    }

    /// Feeds one traversal entry through the resolver.  The entry comes
    /// back unchanged, comes back as a link reference to the name that
    /// carries the content, or is withheld — possibly releasing a
    /// predecessor as a reference in its place.
    pub fn linkify(&mut self, e: FsEntry) -> (r: Option<FsEntry>)
        requires
            old(self).wf(),
        ensures
            final(self).wf(),
            final(self).strategy_model() == old(self).strategy_model(),
            ({
                let (seen2, pending2, out) = spec_linkify(
                    old(self).strategy_model(),
                    old(self).seen_model(),
                    old(self).pending_model(),
                    e@,
                );
                &&& final(self).seen_model() == seen2
                &&& final(self).pending_model() == pending2
                &&& match (r, out) {
                    (Option::Some(x), Option::Some(y)) => x@ == y,
                    (Option::None, Option::None) => true,
                    _ => false,
                }
            }),
    {
        if e.nlink <= 1 {
            return Some(e);
        }
        match self.find_seen(e.dev, e.ino) {
            Option::Some(i) => {
                let target = clone_bytes(&self.seen[i].path);
                let mut out = e;
                out.meta.hardlink = target;
                out.meta.size = 0;
                out.blocks = Vec::new();
                proof {
                    assert(spec_blocks(out.blocks@) =~= Seq::<(Seq<u8>, u64)>::empty());
                }
                Some(out)
            },
            Option::None => {
                match self.strategy {
                    LinkStrategy::WithFirst => {
                        self.seen.push(
                            LinkRecord { dev: e.dev, ino: e.ino, path: clone_bytes(&e.meta.path) },
                        );
                        proof {
                            assert(self.seen_model() =~~= old(self).seen_model().push(
                                (e.dev, e.ino, e@.meta.path),
                            ));
                        }
                        Some(e)
                    },
                    LinkStrategy::WithLast => {
                        match self.find_pending(e.dev, e.ino) {
                            Option::Some(i) => {
                                let target = clone_bytes(&e.meta.path);
                                let mut prev = self.pending[i].duplicate();
                                self.pending.set(i, e);
                                prev.meta.hardlink = target;
                                prev.meta.size = 0;
                                prev.blocks = Vec::new();
                                proof {
                                    let pm = old(self).pending_model();
                                    let gi = spec_pending_find(pm, prev.dev, prev.ino).unwrap();
                                    assert(0 <= gi < pm.len() && pm[gi].dev == prev.dev
                                        && pm[gi].ino == prev.ino);
                                    assert(gi == i as int);
                                    assert(self.pending_model() =~~= pm.update(i as int, e@));
                                    assert(spec_blocks(prev.blocks@) =~= Seq::<
                                        (Seq<u8>, u64),
                                    >::empty());
                                    assert(prev@ == spec_link_ref(pm[i as int], e@.meta.path));
                                }
                                Some(prev)
                            },
                            Option::None => {
                                self.pending.push(e);
                                proof {
                                    assert(self.pending_model() =~~= old(
                                        self,
                                    ).pending_model().push(e@));
                                }
                                None
                            },
                        }
                    },
                }
            },
        }
    }

    /// Hands out everything still withheld, in arrival order, and leaves
    /// the resolver empty.  The caller writes these before the write
    /// handle is freed.
    pub fn flush(&mut self) -> (r: Vec<FsEntry>)
        ensures
            final(self).wf(),
            final(self).strategy_model() == old(self).strategy_model(),
            final(self).seen_model() == old(self).seen_model(),
            final(self).pending_model() == Seq::<FsModel>::empty(),
            r@.map_values(|x: FsEntry| x@) == old(self).pending_model(),
    {
        let mut out: Vec<FsEntry> = Vec::new();
        let mut i: usize = 0;
        while i < self.pending.len()
            invariant
                i <= self.pending@.len(),
                *self == *old(self),
                out@.len() == i,
                forall|j: int| 0 <= j < i ==> (#[trigger] out@[j])@ == self.pending_model()[j],
            decreases self.pending@.len() - i,
        {
            let e = self.pending[i].duplicate();
            out.push(e);
            i = i + 1;
        }
        self.pending = Vec::new();
        proof {
            assert(final(self).pending_model() =~= Seq::<FsModel>::empty());
            assert(out@.map_values(|x: FsEntry| x@) =~~= old(self).pending_model());
        }
        out
    }
}

// ---------------------------------------------------------------------
// Resolution of whole traversals.
// ---------------------------------------------------------------------

/// Runs a sequence of traversal entries through the resolver: the state
/// afterwards and everything released along the way.
pub open spec fn spec_resolve_run(
    strategy: LinkStrategy,
    seen: Seq<(u64, u64, Seq<u8>)>,
    pending: Seq<FsModel>,
    es: Seq<FsModel>,
) -> (Seq<(u64, u64, Seq<u8>)>, Seq<FsModel>, Seq<FsModel>)
    decreases es.len(),
{
    if es.len() == 0 {
        (seen, pending, Seq::empty())
    } else {
        let (seen1, pending1, out) = spec_linkify(strategy, seen, pending, es[0]);
        let (seen2, pending2, rest) = spec_resolve_run(strategy, seen1, pending1, es.skip(1));
        (
            seen2,
            pending2,
            match out {
                Option::Some(x) => seq![x].add(rest),
                Option::None => rest,
            },
        )
    }
}

/// Everything a traversal turns into: what linkify releases along the
/// way, then what the close-time flush releases.
pub open spec fn spec_resolver_outputs(strategy: LinkStrategy, es: Seq<FsModel>) -> Seq<FsModel> {
    let (seen, pending, out) = spec_resolve_run(strategy, Seq::empty(), Seq::empty(), es);
    out + pending
}

/// Running one more entry after a sequence steps the run once.
pub proof fn lemma_run_snoc(
    strategy: LinkStrategy,
    seen: Seq<(u64, u64, Seq<u8>)>,
    pending: Seq<FsModel>,
    es: Seq<FsModel>,
    e: FsModel,
)
    ensures
        ({
            let r1 = spec_resolve_run(strategy, seen, pending, es);
            let st = spec_linkify(strategy, r1.0, r1.1, e);
            spec_resolve_run(strategy, seen, pending, es.push(e)) == (
                st.0,
                st.1,
                r1.2 + match st.2 {
                    Option::Some(x) => seq![x],
                    Option::None => Seq::<FsModel>::empty(),
                },
            )
        }),
    decreases es.len(),
{
    reveal_with_fuel(spec_resolve_run, 3);
    if es.len() == 0 {
        assert(es.push(e)[0] == e);
        assert(es.push(e).skip(1) =~= Seq::<FsModel>::empty());
        let st = spec_linkify(strategy, seen, pending, e);
        match st.2 {
            Option::Some(x) => {
                assert(spec_resolve_run(strategy, seen, pending, es.push(e)).2 =~= Seq::<
                    FsModel,
                >::empty() + seq![x]);
            },
            Option::None => {
                assert(spec_resolve_run(strategy, seen, pending, es.push(e)).2 =~= Seq::<
                    FsModel,
                >::empty() + Seq::<FsModel>::empty());
            },
        }
    } else {
        assert(es.push(e)[0] == es[0]);
        assert(es.push(e).skip(1) =~= es.skip(1).push(e));
        let step0 = spec_linkify(strategy, seen, pending, es[0]);
        lemma_run_snoc(strategy, step0.0, step0.1, es.skip(1), e);
        let r1 = spec_resolve_run(strategy, seen, pending, es);
        let st = spec_linkify(strategy, r1.0, r1.1, e);
        match st.2 {
            Option::Some(x) => {
                assert(spec_resolve_run(strategy, seen, pending, es.push(e)).2 =~= r1.2 + seq![
                    x,
                ]);
            },
            Option::None => {
                assert(spec_resolve_run(strategy, seen, pending, es.push(e)).2 =~= r1.2 + Seq::<
                    FsModel,
                >::empty());
            },
        }
    }
}

/// Two traversal entries that name the same file — same device and
/// inode, more than one link — come out as exactly one full-content
/// member and one link reference, whichever strategy is in force and
/// whichever of the two is met first.
pub proof fn lemma_hardlink_pair(a: FsModel, b: FsModel, strategy: LinkStrategy)
    requires
        a.dev == b.dev,
        a.ino == b.ino,
        a.nlink > 1,
        b.nlink > 1,
    ensures
        strategy == LinkStrategy::WithFirst ==> spec_resolver_outputs(strategy, seq![a, b])
            =~~= seq![a, spec_link_ref(b, a.meta.path)],
        strategy == LinkStrategy::WithLast ==> spec_resolver_outputs(strategy, seq![a, b])
            =~~= seq![spec_link_ref(a, b.meta.path), b],
{
    reveal_with_fuel(spec_resolve_run, 4);
    let es = seq![a, b];
    let s0 = Seq::<(u64, u64, Seq<u8>)>::empty();
    let p0 = Seq::<FsModel>::empty();
    assert(es.skip(1) =~= seq![b]);
    assert(seq![b].skip(1) =~= Seq::<FsModel>::empty());
    assert(spec_seen_lookup(s0, a.dev, a.ino) is None);
    match strategy {
        LinkStrategy::WithFirst => {
            let seen1 = s0.push((a.dev, a.ino, a.meta.path));
            assert(spec_linkify(strategy, s0, p0, a) == (seen1, p0, Option::Some(a)));
            assert(seen1[0] == (a.dev, a.ino, a.meta.path));
            assert(spec_seen_lookup(seen1, b.dev, b.ino) == Option::Some(a.meta.path));
            assert(spec_linkify(strategy, seen1, p0, b) == (
                seen1,
                p0,
                Option::Some(spec_link_ref(b, a.meta.path)),
            ));
            assert(spec_resolve_run(strategy, seen1, p0, seq![b]).2 =~= seq![
                spec_link_ref(b, a.meta.path),
            ]);
            assert(spec_resolver_outputs(strategy, es) =~~= seq![
                a,
                spec_link_ref(b, a.meta.path),
            ]);
        },
        LinkStrategy::WithLast => {
            let pending1 = p0.push(a);
            assert(spec_pending_find(p0, a.dev, a.ino) is None);
            assert(spec_linkify(strategy, s0, p0, a) == (s0, pending1, Option::<FsModel>::None));
            assert(pending1[0].dev == b.dev && pending1[0].ino == b.ino);
            assert(spec_pending_find(pending1, b.dev, b.ino) is Some);
            let i = spec_pending_find(pending1, b.dev, b.ino).unwrap();
            assert(i == 0);
            assert(spec_linkify(strategy, s0, pending1, b) == (
                s0,
                pending1.update(0, b),
                Option::Some(spec_link_ref(a, b.meta.path)),
            ));
            assert(pending1.update(0, b) =~= seq![b]);
            assert(spec_resolve_run(strategy, s0, pending1, seq![b]).2 =~= seq![
                spec_link_ref(a, b.meta.path),
            ]);
            assert(spec_resolve_run(strategy, s0, pending1, seq![b]).1 =~= seq![b]);
            assert(spec_resolver_outputs(strategy, es) =~~= seq![
                spec_link_ref(a, b.meta.path),
                b,
            ]);
        },
    }
}

} // verus!
