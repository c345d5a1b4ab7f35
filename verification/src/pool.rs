use vstd::prelude::*;
use crate::errors::ClientPoolError;
use crate::node_id::NodeId;
use crate::sink::ConnectedPeer;

verus! {

/// What one sink contributes to a batch: its buffered requests when it is
/// live, nothing otherwise.
pub open spec fn contribution<T>(p: ConnectedPeer<T>) -> Seq<T> {
    if p.is_live() {
        p.buffer()
    } else {
        Seq::empty()
    }
}

/// The concatenation of the contributions of a run of sinks, in order.
pub open spec fn buffers_of<T>(s: Seq<ConnectedPeer<T>>) -> Seq<T>
    decreases s.len(),
{
    if s.len() == 0 {
        Seq::empty()
    } else {
        contribution(s[0]) + buffers_of(s.skip(1))
    }
}

/// The ids of the sinks in a run that are no longer live, in order.
pub open spec fn dead_ids_of<T>(s: Seq<ConnectedPeer<T>>) -> Seq<NodeId>
    decreases s.len(),
{
    if s.len() == 0 {
        Seq::empty()
    } else {
        (if !s[0].is_live() {
            seq![s[0].spec_client_id()]
        } else {
            Seq::empty()
        }) + dead_ids_of(s.skip(1))
    }
}

/// The ids of the live sinks in a run, in order.
pub open spec fn live_ids_of<T>(s: Seq<ConnectedPeer<T>>) -> Seq<NodeId>
    decreases s.len(),
{
    if s.len() == 0 {
        Seq::empty()
    } else {
        (if s[0].is_live() {
            seq![s[0].spec_client_id()]
        } else {
            Seq::empty()
        }) + live_ids_of(s.skip(1))
    }
}

/// Everything one collect cycle gathers when it walks the sinks a full
/// revolution, starting at the given rotation point.
pub open spec fn collected<T>(s: Seq<ConnectedPeer<T>>, start: int) -> Seq<T> {
    buffers_of(s.subrange(start, s.len() as int)) + buffers_of(s.subrange(0, start))
}

/// The ids a collect cycle finds dead during its revolution, starting at
/// the given rotation point.
pub open spec fn reaped_ids<T>(s: Seq<ConnectedPeer<T>>, start: int) -> Seq<NodeId> {
    dead_ids_of(s.subrange(start, s.len() as int)) + dead_ids_of(s.subrange(0, start))
}

proof fn lemma_buffers_of_push<T>(s: Seq<ConnectedPeer<T>>, p: ConnectedPeer<T>)
    ensures
        buffers_of(s.push(p)) == buffers_of(s) + contribution(p),
    decreases s.len(),
{
    if s.len() == 0 {
        assert(s.push(p)[0] == p);
        assert(s.push(p).skip(1) =~= Seq::<ConnectedPeer<T>>::empty());
        assert(buffers_of(s.push(p)) == contribution(p) + buffers_of(
            Seq::<ConnectedPeer<T>>::empty(),
        ));
        assert(buffers_of(s.push(p)) =~= buffers_of(s) + contribution(p));
    } else {
        assert(s.push(p)[0] == s[0]);
        assert(s.push(p).skip(1) =~= s.skip(1).push(p));
        lemma_buffers_of_push(s.skip(1), p);
        assert(buffers_of(s.push(p)) == contribution(s[0]) + (buffers_of(s.skip(1))
            + contribution(p)));
        assert(buffers_of(s.push(p)) =~= buffers_of(s) + contribution(p));
    }
}

proof fn lemma_dead_ids_of_push<T>(s: Seq<ConnectedPeer<T>>, p: ConnectedPeer<T>)
    ensures
        dead_ids_of(s.push(p)) == dead_ids_of(s) + (if !p.is_live() {
            seq![p.spec_client_id()]
        } else {
            Seq::<NodeId>::empty()
        }),
    decreases s.len(),
{
    if s.len() == 0 {
        assert(s.push(p)[0] == p);
        assert(s.push(p).skip(1) =~= Seq::<ConnectedPeer<T>>::empty());
        assert(dead_ids_of(s.push(p)) == (if !p.is_live() {
            seq![p.spec_client_id()]
        } else {
            Seq::<NodeId>::empty()
        }) + dead_ids_of(Seq::<ConnectedPeer<T>>::empty()));
        assert(dead_ids_of(s.push(p)) =~= dead_ids_of(s) + (if !p.is_live() {
            seq![p.spec_client_id()]
        } else {
            Seq::<NodeId>::empty()
        }));
    } else {
        assert(s.push(p)[0] == s[0]);
        assert(s.push(p).skip(1) =~= s.skip(1).push(p));
        lemma_dead_ids_of_push(s.skip(1), p);
        assert(dead_ids_of(s.push(p)) == (if !s[0].is_live() {
            seq![s[0].spec_client_id()]
        } else {
            Seq::<NodeId>::empty()
        }) + (dead_ids_of(s.skip(1)) + (if !p.is_live() {
            seq![p.spec_client_id()]
        } else {
            Seq::<NodeId>::empty()
        })));
        assert(dead_ids_of(s.push(p)) =~= dead_ids_of(s) + (if !p.is_live() {
            seq![p.spec_client_id()]
        } else {
            Seq::<NodeId>::empty()
        }));
    }
}

proof fn lemma_live_ids_of_push<T>(s: Seq<ConnectedPeer<T>>, p: ConnectedPeer<T>)
    ensures
        live_ids_of(s.push(p)) == live_ids_of(s) + (if p.is_live() {
            seq![p.spec_client_id()]
        } else {
            Seq::<NodeId>::empty()
        }),
    decreases s.len(),
{
    if s.len() == 0 {
        assert(s.push(p)[0] == p);
        assert(s.push(p).skip(1) =~= Seq::<ConnectedPeer<T>>::empty());
        assert(live_ids_of(s.push(p)) == (if p.is_live() {
            seq![p.spec_client_id()]
        } else {
            Seq::<NodeId>::empty()
        }) + live_ids_of(Seq::<ConnectedPeer<T>>::empty()));
        assert(live_ids_of(s.push(p)) =~= live_ids_of(s) + (if p.is_live() {
            seq![p.spec_client_id()]
        } else {
            Seq::<NodeId>::empty()
        }));
    } else {
        assert(s.push(p)[0] == s[0]);
        assert(s.push(p).skip(1) =~= s.skip(1).push(p));
        lemma_live_ids_of_push(s.skip(1), p);
        assert(live_ids_of(s.push(p)) == (if s[0].is_live() {
            seq![s[0].spec_client_id()]
        } else {
            Seq::<NodeId>::empty()
        }) + (live_ids_of(s.skip(1)) + (if p.is_live() {
            seq![p.spec_client_id()]
        } else {
            Seq::<NodeId>::empty()
        })));
        assert(live_ids_of(s.push(p)) =~= live_ids_of(s) + (if p.is_live() {
            seq![p.spec_client_id()]
        } else {
            Seq::<NodeId>::empty()
        }));
    }
}

proof fn lemma_live_ids_congruent<T>(s1: Seq<ConnectedPeer<T>>, s2: Seq<ConnectedPeer<T>>)
    requires
        s1.len() == s2.len(),
        forall|j: int|
            0 <= j < s1.len() ==> (#[trigger] s1[j]).is_live() == s2[j].is_live()
                && s1[j].spec_client_id() == s2[j].spec_client_id(),
    ensures
        live_ids_of(s1) == live_ids_of(s2),
    decreases s1.len(),
{
    if s1.len() == 0 {
        assert(live_ids_of(s1) =~= live_ids_of(s2));
    } else {
        assert(forall|j: int|
            0 <= j < s1.skip(1).len() ==> (#[trigger] s1.skip(1)[j]).is_live()
                == s2.skip(1)[j].is_live() && s1.skip(1)[j].spec_client_id()
                == s2.skip(1)[j].spec_client_id());
        lemma_live_ids_congruent(s1.skip(1), s2.skip(1));
        assert(s1[0].is_live() == s2[0].is_live());
        assert(live_ids_of(s1) =~= live_ids_of(s2));
    }
}

/// Every entry of the live-id run is the id of some live sink.
pub proof fn lemma_live_ids_witness<T>(s: Seq<ConnectedPeer<T>>, a: int)
    requires
        0 <= a < live_ids_of(s).len(),
    ensures
        exists|m: int|
            0 <= m < s.len() && (#[trigger] s[m]).is_live() && s[m].spec_client_id()
                == live_ids_of(s)[a],
    decreases s.len(),
{
    if s.len() == 0 {
    } else {
        if s[0].is_live() {
            if a == 0 {
                assert(live_ids_of(s)[0] == s[0].spec_client_id());
                assert(0 <= 0 < s.len() && s[0].is_live() && s[0].spec_client_id()
                    == live_ids_of(s)[0]);
            } else {
                lemma_live_ids_witness(s.skip(1), a - 1);
                let m0 = choose|m: int|
                    0 <= m < s.skip(1).len() && (#[trigger] s.skip(1)[m]).is_live() && s.skip(
                        1,
                    )[m].spec_client_id() == live_ids_of(s.skip(1))[a - 1];
                assert(s[m0 + 1] == s.skip(1)[m0]);
                assert(live_ids_of(s)[a] == live_ids_of(s.skip(1))[a - 1]);
                assert(0 <= m0 + 1 < s.len() && s[m0 + 1].is_live() && s[m0 + 1].spec_client_id()
                    == live_ids_of(s)[a]);
            }
        } else {
            lemma_live_ids_witness(s.skip(1), a);
            let m0 = choose|m: int|
                0 <= m < s.skip(1).len() && (#[trigger] s.skip(1)[m]).is_live() && s.skip(
                    1,
                )[m].spec_client_id() == live_ids_of(s.skip(1))[a];
            assert(s[m0 + 1] == s.skip(1)[m0]);
            assert(live_ids_of(s)[a] == live_ids_of(s.skip(1))[a]);
            assert(0 <= m0 + 1 < s.len() && s[m0 + 1].is_live() && s[m0 + 1].spec_client_id()
                == live_ids_of(s)[a]);
        }
    }
}

/// A live sink's id appears in the live-id run.
pub proof fn lemma_live_ids_contains<T>(s: Seq<ConnectedPeer<T>>, m: int)
    requires
        0 <= m < s.len(),
        s[m].is_live(),
    ensures
        live_ids_of(s).contains(s[m].spec_client_id()),
    decreases s.len(),
{
    if m == 0 {
        assert(live_ids_of(s)[0] == s[0].spec_client_id());
    } else {
        assert(s.skip(1)[m - 1] == s[m]);
        lemma_live_ids_contains(s.skip(1), m - 1);
        let a0 = choose|a: int|
            0 <= a < live_ids_of(s.skip(1)).len() && live_ids_of(s.skip(1))[a]
                == s[m].spec_client_id();
        if s[0].is_live() {
            assert(live_ids_of(s)[a0 + 1] == s[m].spec_client_id());
        } else {
            assert(live_ids_of(s)[a0] == s[m].spec_client_id());
        }
    }
}

/// When no two live sinks share an id, the live-id run has no
/// repetitions either.
pub proof fn lemma_live_ids_distinct<T>(s: Seq<ConnectedPeer<T>>)
    requires
        forall|m1: int, m2: int|
            0 <= m1 < m2 < s.len() && (#[trigger] s[m1]).is_live() && (#[trigger] s[m2]).is_live()
                ==> s[m1].spec_client_id() != s[m2].spec_client_id(),
    ensures
        forall|a: int, b: int|
            0 <= a < b < live_ids_of(s).len() ==> live_ids_of(s)[a] != live_ids_of(s)[b],
    decreases s.len(),
{
    if s.len() == 0 {
    } else {
        assert(forall|m1: int, m2: int|
            0 <= m1 < m2 < s.skip(1).len() && (#[trigger] s.skip(1)[m1]).is_live() && (
            #[trigger] s.skip(1)[m2]).is_live() ==> s.skip(1)[m1].spec_client_id() != s.skip(
                1,
            )[m2].spec_client_id());
        lemma_live_ids_distinct(s.skip(1));
        assert forall|a: int, b: int|
            0 <= a < b < live_ids_of(s).len() implies live_ids_of(s)[a] != live_ids_of(s)[b] by {
            if s[0].is_live() {
                if a == 0 {
                    lemma_live_ids_witness(s.skip(1), b - 1);
                    let m0 = choose|m: int|
                        0 <= m < s.skip(1).len() && (#[trigger] s.skip(1)[m]).is_live() && s.skip(
                            1,
                        )[m].spec_client_id() == live_ids_of(s.skip(1))[b - 1];
                    assert(s[m0 + 1] == s.skip(1)[m0]);
                    assert(s[0].spec_client_id() != s[m0 + 1].spec_client_id());
                    assert(live_ids_of(s)[b] == live_ids_of(s.skip(1))[b - 1]);
                } else {
                    assert(live_ids_of(s)[a] == live_ids_of(s.skip(1))[a - 1]);
                    assert(live_ids_of(s)[b] == live_ids_of(s.skip(1))[b - 1]);
                }
            } else {
                assert(live_ids_of(s)[a] == live_ids_of(s.skip(1))[a]);
                assert(live_ids_of(s)[b] == live_ids_of(s.skip(1))[b]);
            }
        }
    }
}

/// A dead sink's id appears in the dead-id run.
proof fn lemma_dead_ids_of_contains<T>(s: Seq<ConnectedPeer<T>>, m: int)
    requires
        0 <= m < s.len(),
        !s[m].is_live(),
    ensures
        dead_ids_of(s).contains(s[m].spec_client_id()),
    decreases s.len(),
{
    if m == 0 {
        assert(dead_ids_of(s)[0] == s[0].spec_client_id());
    } else {
        assert(s.skip(1)[m - 1] == s[m]);
        lemma_dead_ids_of_contains(s.skip(1), m - 1);
        let a0 = choose|a: int|
            0 <= a < dead_ids_of(s.skip(1)).len() && dead_ids_of(s.skip(1))[a]
                == s[m].spec_client_id();
        if !s[0].is_live() {
            assert(dead_ids_of(s)[a0 + 1] == s[m].spec_client_id());
        } else {
            assert(dead_ids_of(s)[a0] == s[m].spec_client_id());
        }
    }
}

/// Every sink found dead during a revolution shows up on the reap list,
/// wherever the rotation started.
pub proof fn lemma_reaped_contains<T>(s: Seq<ConnectedPeer<T>>, start: int, m: int)
    requires
        0 <= start < s.len(),
        0 <= m < s.len(),
        !s[m].is_live(),
    ensures
        reaped_ids(s, start).contains(s[m].spec_client_id()),
{
    if m >= start {
        let sub = s.subrange(start, s.len() as int);
        assert(sub[m - start] == s[m]);
        lemma_dead_ids_of_contains(sub, m - start);
        let a0 = choose|a: int|
            0 <= a < dead_ids_of(sub).len() && dead_ids_of(sub)[a] == s[m].spec_client_id();
        assert(reaped_ids(s, start)[a0] == s[m].spec_client_id());
    } else {
        let sub = s.subrange(0, start);
        assert(sub[m] == s[m]);
        lemma_dead_ids_of_contains(sub, m);
        let a0 = choose|a: int|
            0 <= a < dead_ids_of(sub).len() && dead_ids_of(sub)[a] == s[m].spec_client_id();
        assert(reaped_ids(s, start)[dead_ids_of(s.subrange(start, s.len() as int)).len() + a0]
            == s[m].spec_client_id());
    }
}

proof fn lemma_buffers_of_block<T>(s: Seq<ConnectedPeer<T>>, m: int)
    requires
        0 <= m < s.len(),
    ensures
        exists|off: int|
            #![trigger buffers_of(s).subrange(off, off + contribution(s[m]).len() as int)]
            0 <= off && off + contribution(s[m]).len() <= buffers_of(s).len() && buffers_of(
                s,
            ).subrange(off, off + contribution(s[m]).len() as int) == contribution(s[m]),
    decreases s.len(),
{
    if m == 0 {
        assert(buffers_of(s).subrange(0, contribution(s[0]).len() as int) =~= contribution(s[0]));
        assert(0 <= 0 && 0 + contribution(s[0]).len() <= buffers_of(s).len() && buffers_of(
            s,
        ).subrange(0, 0 + contribution(s[0]).len() as int) == contribution(s[0]));
    } else {
        lemma_buffers_of_block(s.skip(1), m - 1);
        let off0 = choose|off: int|
            #![trigger buffers_of(s.skip(1)).subrange(off, off + contribution(s.skip(1)[m - 1]).len() as int)]
            0 <= off && off + contribution(s.skip(1)[m - 1]).len() <= buffers_of(
                s.skip(1),
            ).len() && buffers_of(s.skip(1)).subrange(
                off,
                off + contribution(s.skip(1)[m - 1]).len() as int,
            ) == contribution(s.skip(1)[m - 1]);
        assert(s.skip(1)[m - 1] == s[m]);
        let head = contribution(s[0]);
        let off = head.len() + off0;
        assert(buffers_of(s).subrange(off, off + contribution(s[m]).len() as int) =~= buffers_of(
            s.skip(1),
        ).subrange(off0, off0 + contribution(s[m]).len() as int));
        assert(0 <= off && off + contribution(s[m]).len() <= buffers_of(s).len() && buffers_of(
            s,
        ).subrange(off, off + contribution(s[m]).len() as int) == contribution(s[m]));
    }
}

/// Whatever slot a sink occupies and wherever the rotation starts, its
/// whole buffer enters the batch as one contiguous block, in push order.
pub proof fn lemma_collected_block<T>(s: Seq<ConnectedPeer<T>>, start: int, m: int)
    requires
        0 <= start < s.len(),
        0 <= m < s.len(),
    ensures
        exists|off: int|
            #![trigger collected(s, start).subrange(off, off + contribution(s[m]).len() as int)]
            0 <= off && off + contribution(s[m]).len() <= collected(s, start).len() && collected(
                s,
                start,
            ).subrange(off, off + contribution(s[m]).len() as int) == contribution(s[m]),
{
    let first = s.subrange(start, s.len() as int);
    let second = s.subrange(0, start);
    if m >= start {
        assert(first[m - start] == s[m]);
        lemma_buffers_of_block(first, m - start);
        let off0 = choose|off: int|
            #![trigger buffers_of(first).subrange(off, off + contribution(first[m - start]).len() as int)]
            0 <= off && off + contribution(first[m - start]).len() <= buffers_of(first).len()
                && buffers_of(first).subrange(off, off + contribution(first[m - start]).len() as int)
                == contribution(first[m - start]);
        assert(collected(s, start).subrange(off0, off0 + contribution(s[m]).len() as int) =~= buffers_of(
            first,
        ).subrange(off0, off0 + contribution(s[m]).len() as int));
        assert(0 <= off0 && off0 + contribution(s[m]).len() <= collected(s, start).len()
            && collected(s, start).subrange(off0, off0 + contribution(s[m]).len() as int) == contribution(
            s[m],
        ));
    } else {
        assert(second[m] == s[m]);
        lemma_buffers_of_block(second, m);
        let off0 = choose|off: int|
            #![trigger buffers_of(second).subrange(off, off + contribution(second[m]).len() as int)]
            0 <= off && off + contribution(second[m]).len() <= buffers_of(second).len()
                && buffers_of(second).subrange(off, off + contribution(second[m]).len() as int)
                == contribution(second[m]);
        let off = buffers_of(first).len() + off0;
        assert(collected(s, start).subrange(off, off + contribution(s[m]).len() as int) =~= buffers_of(
            second,
        ).subrange(off0, off0 + contribution(s[m]).len() as int));
        assert(0 <= off && off + contribution(s[m]).len() <= collected(s, start).len()
            && collected(s, start).subrange(off, off + contribution(s[m]).len() as int) == contribution(
            s[m],
        ));
    }
}

proof fn lemma_buffers_of_from<T>(s: Seq<ConnectedPeer<T>>, x: int)
    requires
        0 <= x < buffers_of(s).len(),
    ensures
        exists|m: int|
            0 <= m < s.len() && (#[trigger] s[m]).is_live() && s[m].buffer().contains(
                buffers_of(s)[x],
            ),
    decreases s.len(),
{
    if s.len() == 0 {
    } else {
        let head = contribution(s[0]);
        if x < head.len() {
            assert(buffers_of(s)[x] == head[x]);
            assert(s[0].is_live());
            assert(s[0].buffer().contains(buffers_of(s)[x]));
            assert(0 <= 0 < s.len() && s[0].is_live() && s[0].buffer().contains(
                buffers_of(s)[x],
            ));
        } else {
            assert(buffers_of(s)[x] == buffers_of(s.skip(1))[x - head.len()]);
            lemma_buffers_of_from(s.skip(1), x - head.len());
            let m0 = choose|m: int|
                0 <= m < s.skip(1).len() && (#[trigger] s.skip(1)[m]).is_live() && s.skip(
                    1,
                )[m].buffer().contains(buffers_of(s.skip(1))[x - head.len()]);
            assert(s[m0 + 1] == s.skip(1)[m0]);
            assert(0 <= m0 + 1 < s.len() && s[m0 + 1].is_live() && s[m0 + 1].buffer().contains(
                buffers_of(s)[x],
            ));
        }
    }
}

/// A batch never invents a request: everything a collect cycle gathers
/// was sitting, at the moment the batch was sealed, in the buffer of a
/// sink that was still live - and a buffer only ever grows by pushes.
pub proof fn lemma_collected_from_buffers<T>(s: Seq<ConnectedPeer<T>>, start: int, x: int)
    requires
        0 <= start < s.len(),
        0 <= x < collected(s, start).len(),
    ensures
        exists|m: int|
            0 <= m < s.len() && (#[trigger] s[m]).is_live() && s[m].buffer().contains(
                collected(s, start)[x],
            ),
{
    let first = s.subrange(start, s.len() as int);
    let second = s.subrange(0, start);
    if x < buffers_of(first).len() {
        assert(collected(s, start)[x] == buffers_of(first)[x]);
        lemma_buffers_of_from(first, x);
        let m0 = choose|m: int|
            0 <= m < first.len() && (#[trigger] first[m]).is_live() && first[m].buffer().contains(
                buffers_of(first)[x],
            );
        assert(s[m0 + start] == first[m0]);
        assert(0 <= m0 + start < s.len() && s[m0 + start].is_live() && s[m0
            + start].buffer().contains(collected(s, start)[x]));
    } else {
        assert(collected(s, start)[x] == buffers_of(second)[x - buffers_of(first).len()]);
        lemma_buffers_of_from(second, x - buffers_of(first).len());
        let m0 = choose|m: int|
            0 <= m < second.len() && (#[trigger] second[m]).is_live()
                && second[m].buffer().contains(buffers_of(second)[x - buffers_of(first).len()]);
        assert(s[m0] == second[m0]);
        assert(0 <= m0 < s.len() && s[m0].is_live() && s[m0].buffer().contains(
            collected(s, start)[x],
        ));
    }
}

proof fn lemma_buffers_of_congruent<T>(s1: Seq<ConnectedPeer<T>>, s2: Seq<ConnectedPeer<T>>)
    requires
        s1.len() == s2.len(),
        forall|j: int|
            0 <= j < s1.len() ==> ((#[trigger] s1[j]).is_live() == s2[j].is_live() && (s1[j].is_live() ==> s1[j] == s2[j])),
    ensures
        buffers_of(s1) == buffers_of(s2),
    decreases s1.len(),
{
    if s1.len() == 0 {
        assert(buffers_of(s1) =~= buffers_of(s2));
    } else {
        assert(forall|j: int|
            0 <= j < s1.skip(1).len() ==> ((#[trigger] s1.skip(1)[j]).is_live() == s2.skip(
                1,
            )[j].is_live() && (s1.skip(1)[j].is_live() ==> s1.skip(1)[j] == s2.skip(1)[j])));
        lemma_buffers_of_congruent(s1.skip(1), s2.skip(1));
        assert(contribution(s1[0]) == contribution(s2[0]));
        assert(buffers_of(s1) =~= buffers_of(s2));
    }
}

/// A batch never carries anything from a disconnected sink: two sink
/// runs that agree on their live sinks collect the very same batch, no
/// matter what the dead sinks still hold.
pub proof fn lemma_collected_ignores_dead<T>(
    s1: Seq<ConnectedPeer<T>>,
    s2: Seq<ConnectedPeer<T>>,
    start: int,
)
    requires
        s1.len() == s2.len(),
        0 <= start <= s1.len(),
        forall|j: int|
            0 <= j < s1.len() ==> ((#[trigger] s1[j]).is_live() == s2[j].is_live() && (s1[j].is_live() ==> s1[j] == s2[j])),
    ensures
        collected(s1, start) == collected(s2, start),
{
    assert(forall|j: int|
        0 <= j < s1.subrange(start, s1.len() as int).len() ==> ((#[trigger] s1.subrange(
            start,
            s1.len() as int,
        )[j]).is_live() == s2.subrange(start, s2.len() as int)[j].is_live() && (s1.subrange(
            start,
            s1.len() as int,
        )[j].is_live() ==> s1.subrange(start, s1.len() as int)[j] == s2.subrange(
            start,
            s2.len() as int,
        )[j])));
    lemma_buffers_of_congruent(
        s1.subrange(start, s1.len() as int),
        s2.subrange(start, s2.len() as int),
    );
    assert(forall|j: int|
        0 <= j < s1.subrange(0, start).len() ==> ((#[trigger] s1.subrange(0, start)[j]).is_live()
            == s2.subrange(0, start)[j].is_live() && (s1.subrange(0, start)[j].is_live()
            ==> s1.subrange(0, start)[j] == s2.subrange(0, start)[j])));
    lemma_buffers_of_congruent(s1.subrange(0, start), s2.subrange(0, start));
}

/// A cohort of at most `client_limit` pooled client sinks, drained in
/// round-robin by one dedicated batch worker.
pub struct ConnectedPeersPool<T> {
    pool_id: usize,
    connected_clients: Vec<ConnectedPeer<T>>,
    batch_size: usize,
    client_limit: usize,
    batch_timeout_micros: u64,
    batch_sleep_micros: u64,
    per_client_cache: usize,
    finish_execution: bool,
}

impl<T> ConnectedPeersPool<T> {
    pub closed spec fn spec_pool_id(&self) -> usize {
        self.pool_id
    }

    /// The sinks this pool currently holds, in list order.
    pub closed spec fn spec_members(&self) -> Seq<ConnectedPeer<T>> {
        self.connected_clients@
    }

    pub closed spec fn spec_batch_size(&self) -> usize {
        self.batch_size
    }

    pub closed spec fn spec_client_limit(&self) -> usize {
        self.client_limit
    }

    pub closed spec fn spec_batch_timeout_micros(&self) -> u64 {
        self.batch_timeout_micros
    }

    pub closed spec fn spec_batch_sleep_micros(&self) -> u64 {
        self.batch_sleep_micros
    }

    pub closed spec fn spec_per_client_cache(&self) -> usize {
        self.per_client_cache
    }

    pub closed spec fn spec_finished(&self) -> bool {
        self.finish_execution
    }

    /// The pool's tuning values and identity, bundled so contracts can say
    /// in one word that an operation leaves them alone.
    pub open spec fn same_config(&self, other: &Self) -> bool {
        &&& self.spec_pool_id() == other.spec_pool_id()
        &&& self.spec_batch_size() == other.spec_batch_size()
        &&& self.spec_client_limit() == other.spec_client_limit()
        &&& self.spec_batch_timeout_micros() == other.spec_batch_timeout_micros()
        &&& self.spec_batch_sleep_micros() == other.spec_batch_sleep_micros()
        &&& self.spec_per_client_cache() == other.spec_per_client_cache()
    }

    /// The pool never exceeds its membership bound and holds pooled sinks
    /// only.
    pub open spec fn wf(&self) -> bool {
        &&& self.spec_members().len() <= self.spec_client_limit()
        &&& forall|j: int|
            0 <= j < self.spec_members().len() ==> (#[trigger] self.spec_members()[j]).is_pooled()
    }

    pub fn new(
        pool_id: usize,
        batch_size: usize,
        client_per_pool: usize,
        batch_timeout_micros: u64,
        batch_sleep_micros: u64,
        per_client_cache: usize,
    ) -> (r: Self)
        ensures
            r.wf(),
            r.spec_pool_id() == pool_id,
            r.spec_members() == Seq::<ConnectedPeer<T>>::empty(),
            r.spec_batch_size() == batch_size,
            r.spec_client_limit() == client_per_pool,
            r.spec_batch_timeout_micros() == batch_timeout_micros,
            r.spec_batch_sleep_micros() == batch_sleep_micros,
            r.spec_per_client_cache() == per_client_cache,
            !r.spec_finished(),
    {
        ConnectedPeersPool {
            pool_id,
            connected_clients: Vec::new(),
            batch_size,
            client_limit: client_per_pool,
            batch_timeout_micros,
            batch_sleep_micros,
            per_client_cache,
            finish_execution: false,
        }
    }

    pub fn pool_id(&self) -> (r: usize)
        ensures
            r == self.spec_pool_id(),
    {
        self.pool_id
    }

    pub fn member_count(&self) -> (r: usize)
        ensures
            r == self.spec_members().len(),
    {
        self.connected_clients.len()
    }

    pub fn client_limit(&self) -> (r: usize)
        ensures
            r == self.spec_client_limit(),
    {
        self.client_limit
    }

    /// Whether the worker of this pool has been told to stop.
    pub fn is_finished(&self) -> (r: bool)
        ensures
            r == self.spec_finished(),
    {
        self.finish_execution
    }

    /// Accepts the sink while there is room under the membership bound;
    /// a refused sink is handed back so the caller can try another pool.
    pub fn attempt_to_add(&mut self, client: ConnectedPeer<T>) -> (r: Result<
        (),
        ConnectedPeer<T>,
    >)
        requires
            old(self).wf(),
            client.is_pooled(),
        ensures
            final(self).wf(),
            final(self).same_config(old(self)),
            final(self).spec_finished() == old(self).spec_finished(),
            old(self).spec_members().len() < old(self).spec_client_limit() ==> {
                &&& r is Ok
                &&& final(self).spec_members() == old(self).spec_members().push(client)
            },
            old(self).spec_members().len() >= old(self).spec_client_limit() ==> {
                &&& (r matches Err(c) && c == client)
                &&& *final(self) == *old(self)
            },
    {
        if self.connected_clients.len() < self.client_limit {
            self.connected_clients.push(client);
            Ok(())
        } else {
            Err(client)
        }
    }

    /// Removes the first sink registered under the given id, telling the
    /// caller whether the pool is empty afterwards; fails when no sink
    /// carries the id. The last sink takes the removed one's slot.
    pub fn attempt_to_remove(&mut self, client_id: &NodeId) -> (r: Result<bool, ()>)
        requires
            old(self).wf(),
        ensures
            final(self).wf(),
            final(self).same_config(old(self)),
            final(self).spec_finished() == old(self).spec_finished(),
            (forall|j: int|
                0 <= j < old(self).spec_members().len() ==> (#[trigger] old(self).spec_members()[j]).spec_client_id() != *client_id) ==> {
                &&& r is Err
                &&& final(self).spec_members() == old(self).spec_members()
            },
            (exists|j: int|
                0 <= j < old(self).spec_members().len() && (#[trigger] old(self).spec_members()[j]).spec_client_id() == *client_id) ==> {
                &&& (r matches Ok(empty) && empty == (old(self).spec_members().len() == 1))
                &&& final(self).spec_members().len() == old(self).spec_members().len() - 1
                &&& exists|j: int|
                    {
                        &&& 0 <= j < old(self).spec_members().len()
                        &&& (#[trigger] old(self).spec_members()[j]).spec_client_id() == *client_id
                        &&& final(self).spec_members() == old(self).spec_members().update(
                            j,
                            old(self).spec_members().last(),
                        ).drop_last()
                    }
            },
    {
        let n = self.connected_clients.len();
        let mut i: usize = 0;
        while i < n
            invariant
                *self == *old(self),
                old(self).wf(),
                n == self.connected_clients@.len(),
                i <= n,
                forall|j: int|
                    0 <= j < i ==> (#[trigger] self.connected_clients@[j]).spec_client_id()
                        != *client_id,
            decreases n - i,
        {
            if self.connected_clients[i].client_id().id() == client_id.id() {
                proof {
                    assert(old(self).spec_members()[i as int].spec_client_id() == *client_id);
                }
                self.connected_clients.swap_remove(i);
                proof {
                    assert((i as int) < old(self).spec_members().len() && old(self).spec_members()[i as int].spec_client_id() == *client_id && self.connected_clients@
                        == old(self).spec_members().update(
                        i as int,
                        old(self).spec_members().last(),
                    ).drop_last());
                }
                return Ok(self.connected_clients.len() == 0);
            }
            i = i + 1;
        }
        Err(())
    }

    /// Signals the worker of this pool to stop after its current
    /// iteration. The transition is one-way.
    pub fn shutdown(&mut self)
        ensures
            final(self).same_config(old(self)),
            final(self).spec_members() == old(self).spec_members(),
            final(self).spec_finished(),
            old(self).wf() ==> final(self).wf(),
    {
        self.finish_execution = true;
    }

    /// Whether some live sink of this pool carries the given id.
    pub open spec fn spec_has_live(&self, client_id: NodeId) -> bool {
        exists|j: int|
            0 <= j < self.spec_members().len() && (#[trigger] self.spec_members()[j]).is_live()
                && self.spec_members()[j].spec_client_id() == client_id
    }

    /// Whether some live sink of this pool carries the given id.
    pub fn contains_live(&self, client_id: NodeId) -> (r: bool)
        ensures
            r == self.spec_has_live(client_id),
    {
        let n = self.connected_clients.len();
        let mut i: usize = 0;
        while i < n
            invariant
                n == self.connected_clients@.len(),
                i <= n,
                forall|j: int|
                    0 <= j < i ==> !((#[trigger] self.connected_clients@[j]).is_live()
                        && self.connected_clients@[j].spec_client_id() == client_id),
            decreases n - i,
        {
            let member = &self.connected_clients[i];
            if member.live() && member.client_id().id() == client_id.id() {
                proof {
                    assert(self.spec_members()[i as int].is_live()
                        && self.spec_members()[i as int].spec_client_id() == client_id);
                }
                return true;
            }
            i = i + 1;
        }
        false
    }

    /// One collect cycle: walks the sinks a full revolution from the
    /// given rotation point, draining every live sink into one batch and
    /// noting every dead sink; then drops the dead sinks from the list.
    /// Returns the batch, or the close-pool signal when no live sink is
    /// left, together with the ids of the sinks it reaped.
    pub fn collect_requests(&mut self, start_point: usize) -> (r: (
        Result<Vec<T>, ClientPoolError>,
        Vec<NodeId>,
    ))
        requires
            old(self).wf(),
            old(self).spec_members().len() > 0 ==> start_point < old(self).spec_members().len(),
        ensures
            final(self).wf(),
            final(self).same_config(old(self)),
            final(self).spec_finished() == old(self).spec_finished(),
            old(self).spec_members().len() == 0 ==> {
                &&& (r.0 matches Err(e) && e == ClientPoolError::ClosePool)
                &&& final(self).spec_members() == old(self).spec_members()
                &&& r.1@ == Seq::<NodeId>::empty()
            },
            old(self).spec_members().len() > 0 ==> {
                &&& r.1@ == reaped_ids(old(self).spec_members(), start_point as int)
                &&& final(self).spec_members().len() == live_ids_of(old(self).spec_members()).len()
                &&& forall|j: int|
                    0 <= j < final(self).spec_members().len() ==> {
                        &&& (#[trigger] final(self).spec_members()[j]).is_live()
                        &&& final(self).spec_members()[j].buffer() == Seq::<T>::empty()
                        &&& final(self).spec_members()[j].spec_client_id() == live_ids_of(
                            old(self).spec_members(),
                        )[j]
                    }
                &&& (live_ids_of(old(self).spec_members()).len() == 0 ==> (r.0 matches Err(e)
                    && e == ClientPoolError::ClosePool))
                &&& (live_ids_of(old(self).spec_members()).len() > 0 ==> (r.0 matches Ok(b)
                    && b@ == collected(old(self).spec_members(), start_point as int)))
            },
    {
        let ghost snap = self.connected_clients@;
        let mut dced: Vec<NodeId> = Vec::new();
        let n = self.connected_clients.len();
        if n == 0 {
            return (Err(ClientPoolError::ClosePool), dced);
        }
        let mut batch: Vec<T> = Vec::new();
        let mut replacement_vec: Vec<T> = Vec::with_capacity(self.per_client_cache);

        proof {
            assert(snap.subrange(start_point as int, start_point as int)
                =~= Seq::<ConnectedPeer<T>>::empty());
        }

        // First leg of the revolution: the slots from the rotation start
        // to the end of the list.
        let mut idx: usize = start_point;
        while idx < n
            invariant
                old(self).wf(),
                snap == old(self).spec_members(),
                self.same_config(old(self)),
                self.spec_finished() == old(self).spec_finished(),
                n == snap.len(),
                n == self.connected_clients@.len(),
                0 < n,
                start_point < n,
                start_point <= idx <= n,
                forall|j: int|
                    0 <= j < n ==> {
                        &&& (#[trigger] self.connected_clients@[j]).spec_client_id()
                            == snap[j].spec_client_id()
                        &&& self.connected_clients@[j].is_pooled() == snap[j].is_pooled()
                        &&& self.connected_clients@[j].is_live() == snap[j].is_live()
                    },
                forall|j: int|
                    0 <= j < n && !(start_point <= j < idx) ==> (#[trigger] self.connected_clients@[j])
                        == snap[j],
                forall|j: int|
                    start_point <= j < idx && snap[j].is_live() ==> (#[trigger] self.connected_clients@[j]).buffer()
                        == Seq::<T>::empty(),
                batch@ == buffers_of(snap.subrange(start_point as int, idx as int)),
                dced@ == dead_ids_of(snap.subrange(start_point as int, idx as int)),
                replacement_vec@.len() == 0,
            decreases n - idx,
        {
            replacement_vec = self.visit_member(idx, &mut batch, &mut dced, replacement_vec);
            proof {
                assert(snap.subrange(start_point as int, idx as int + 1) =~= snap.subrange(
                    start_point as int,
                    idx as int,
                ).push(snap[idx as int]));
                lemma_buffers_of_push(
                    snap.subrange(start_point as int, idx as int),
                    snap[idx as int],
                );
                lemma_dead_ids_of_push(
                    snap.subrange(start_point as int, idx as int),
                    snap[idx as int],
                );
            }
            idx = idx + 1;
        }

        proof {
            assert(snap.subrange(0, 0) =~= Seq::<ConnectedPeer<T>>::empty());
        }

        // Second leg: the wrap-around over the slots before the start.
        let mut idx2: usize = 0;
        while idx2 < start_point
            invariant
                old(self).wf(),
                snap == old(self).spec_members(),
                self.same_config(old(self)),
                self.spec_finished() == old(self).spec_finished(),
                n == snap.len(),
                n == self.connected_clients@.len(),
                0 < n,
                start_point < n,
                idx2 <= start_point,
                forall|j: int|
                    0 <= j < n ==> {
                        &&& (#[trigger] self.connected_clients@[j]).spec_client_id()
                            == snap[j].spec_client_id()
                        &&& self.connected_clients@[j].is_pooled() == snap[j].is_pooled()
                        &&& self.connected_clients@[j].is_live() == snap[j].is_live()
                    },
                forall|j: int|
                    idx2 <= j < start_point ==> (#[trigger] self.connected_clients@[j]) == snap[j],
                forall|j: int|
                    (start_point <= j < n || 0 <= j < idx2) && snap[j].is_live() ==> (
                    #[trigger] self.connected_clients@[j]).buffer() == Seq::<T>::empty(),
                batch@ == buffers_of(snap.subrange(start_point as int, n as int)) + buffers_of(
                    snap.subrange(0, idx2 as int),
                ),
                dced@ == dead_ids_of(snap.subrange(start_point as int, n as int)) + dead_ids_of(
                    snap.subrange(0, idx2 as int),
                ),
                replacement_vec@.len() == 0,
            decreases start_point - idx2,
        {
            replacement_vec = self.visit_member(idx2, &mut batch, &mut dced, replacement_vec);
            proof {
                assert(snap.subrange(0, idx2 as int + 1) =~= snap.subrange(0, idx2 as int).push(
                    snap[idx2 as int],
                ));
                lemma_buffers_of_push(snap.subrange(0, idx2 as int), snap[idx2 as int]);
                lemma_dead_ids_of_push(snap.subrange(0, idx2 as int), snap[idx2 as int]);
            }
            idx2 = idx2 + 1;
        }

        // Reap: rebuild the list out of the live sinks, in list order.
        let ghost drained = self.connected_clients@;
        proof {
            assert(drained.subrange(0, 0) =~= Seq::<ConnectedPeer<T>>::empty());
        }
        let mut survivors: Vec<ConnectedPeer<T>> = Vec::new();
        let mut removed: Vec<ConnectedPeer<T>> = Vec::new();
        core::mem::swap(&mut self.connected_clients, &mut removed);
        let mut taken: usize = 0;
        while removed.len() > 0
            invariant
                self.same_config(old(self)),
                self.spec_finished() == old(self).spec_finished(),
                n == drained.len(),
                taken <= n,
                removed@ == drained.skip(taken as int),
                survivors@.len() == live_ids_of(drained.subrange(0, taken as int)).len(),
                survivors@.len() <= taken,
                forall|j: int|
                    0 <= j < survivors@.len() ==> {
                        &&& (#[trigger] survivors@[j]).is_live()
                        &&& survivors@[j].buffer() == Seq::<T>::empty()
                        &&& survivors@[j].spec_client_id() == live_ids_of(
                            drained.subrange(0, taken as int),
                        )[j]
                    },
                forall|j: int|
                    0 <= j < n && drained[j].is_live() ==> (#[trigger] drained[j]).buffer()
                        == Seq::<T>::empty(),
            decreases removed@.len(),
        {
            let p = removed.remove(0);
            proof {
                assert(drained.skip(taken as int)[0] == drained[taken as int]);
                assert(removed@ =~= drained.skip(taken as int + 1));
            }
            if p.live() {
                survivors.push(p);
            }
            proof {
                assert(drained.subrange(0, taken as int + 1) =~= drained.subrange(
                    0,
                    taken as int,
                ).push(drained[taken as int]));
                lemma_live_ids_of_push(drained.subrange(0, taken as int), drained[taken as int]);
            }
            taken = taken + 1;
        }
        proof {
            assert(drained.subrange(0, n as int) =~= drained);
            lemma_live_ids_congruent(snap, drained);
        }
        self.connected_clients = survivors;

        if self.connected_clients.len() == 0 {
            (Err(ClientPoolError::ClosePool), dced)
        } else {
            (Ok(batch), dced)
        }
    }

    /// Disconnects the first live sink registered under the given id, if
    /// one is present, and reports whether it found one. Every other sink
    /// is left untouched.
    pub fn disconnect_live(&mut self, client_id: NodeId) -> (r: bool)
        requires
            old(self).wf(),
        ensures
            final(self).wf(),
            final(self).same_config(old(self)),
            final(self).spec_finished() == old(self).spec_finished(),
            final(self).spec_members().len() == old(self).spec_members().len(),
            forall|j: int|
                0 <= j < old(self).spec_members().len() ==> {
                    &&& (#[trigger] final(self).spec_members()[j]).spec_client_id() == old(self).spec_members()[j].spec_client_id()
                    &&& final(self).spec_members()[j].is_pooled() == old(self).spec_members()[j].is_pooled()
                    &&& (final(self).spec_members()[j].is_live() ==> old(self).spec_members()[j].is_live())
                    &&& (final(self).spec_members()[j].is_live() ==> final(self).spec_members()[j] == old(self).spec_members()[j])
                    &&& (old(self).spec_members()[j].spec_client_id() != client_id ==> final(self).spec_members()[j] == old(self).spec_members()[j])
                },
            r == exists|j: int|
                0 <= j < old(self).spec_members().len() && (#[trigger] old(self).spec_members()[j]).is_live() && old(self).spec_members()[j].spec_client_id()
                    == client_id,
            (forall|j1: int, j2: int|
                0 <= j1 < j2 < old(self).spec_members().len() && (#[trigger] old(self).spec_members()[j1]).is_live() && (#[trigger] old(self).spec_members()[j2]).is_live() ==> old(self).spec_members()[j1].spec_client_id()
                    != old(self).spec_members()[j2].spec_client_id()) ==> forall|j: int|
                0 <= j < final(self).spec_members().len() && (#[trigger] final(self).spec_members()[j]).is_live() ==> final(self).spec_members()[j].spec_client_id()
                    != client_id,
    {
        let ghost snap = self.connected_clients@;
        let n = self.connected_clients.len();
        let mut i: usize = 0;
        while i < n
            invariant
                old(self).wf(),
                snap == old(self).spec_members(),
                *self == *old(self),
                n == snap.len(),
                i <= n,
                forall|j: int|
                    0 <= j < i ==> !((#[trigger] snap[j]).is_live() && snap[j].spec_client_id()
                        == client_id),
            decreases n - i,
        {
            let target = {
                let member = &self.connected_clients[i];
                member.live() && member.client_id().id() == client_id.id()
            };
            if target {
                let member = &mut self.connected_clients[i];
                member.disconnect();
                proof {
                    assert(snap[i as int].is_live() && snap[i as int].spec_client_id()
                        == client_id);
                    assert(self.connected_clients@ =~= snap.update(
                        i as int,
                        self.connected_clients@[i as int],
                    ));
                }
                return true;
            }
            i = i + 1;
        }
        false
    }

    /// Hands out the live sink registered under the given id, if the pool
    /// holds one.
    pub fn get_live(&self, client_id: NodeId) -> (r: Option<&ConnectedPeer<T>>)
        ensures
            (r matches Some(p) ==> p.is_live() && p.spec_client_id() == client_id
                && self.spec_has_live(client_id)),
            r is None ==> forall|j: int|
                0 <= j < self.spec_members().len() ==> !((#[trigger] self.spec_members()[j]).is_live()
                    && self.spec_members()[j].spec_client_id() == client_id),
    {
        let n = self.connected_clients.len();
        let mut i: usize = 0;
        while i < n
            invariant
                n == self.connected_clients@.len(),
                i <= n,
                forall|j: int|
                    0 <= j < i ==> !((#[trigger] self.connected_clients@[j]).is_live()
                        && self.connected_clients@[j].spec_client_id() == client_id),
            decreases n - i,
        {
            let member = &self.connected_clients[i];
            if member.live() && member.client_id().id() == client_id.id() {
                proof {
                    assert(self.spec_members()[i as int].is_live()
                        && self.spec_members()[i as int].spec_client_id() == client_id);
                }
                return Some(member);
            }
            i = i + 1;
        }
        None
    }

    /// Appends a request to the buffer of the live sink registered under
    /// the given id; fails when the pool holds no live sink for it.
    pub fn push_request_to(&mut self, client_id: NodeId, msg: T) -> (r: Result<
        (),
        ClientPoolError,
    >)
        requires
            old(self).wf(),
        ensures
            final(self).wf(),
            final(self).same_config(old(self)),
            final(self).spec_finished() == old(self).spec_finished(),
            final(self).spec_members().len() == old(self).spec_members().len(),
            forall|j: int|
                0 <= j < old(self).spec_members().len() ==> {
                    &&& (#[trigger] final(self).spec_members()[j]).spec_client_id() == old(self).spec_members()[j].spec_client_id()
                    &&& final(self).spec_members()[j].is_pooled() == old(self).spec_members()[j].is_pooled()
                    &&& final(self).spec_members()[j].is_live() == old(self).spec_members()[j].is_live()
                },
            old(self).spec_has_live(client_id) ==> r is Ok && exists|j: int|
                {
                    &&& 0 <= j < old(self).spec_members().len()
                    &&& (#[trigger] old(self).spec_members()[j]).is_live()
                    &&& old(self).spec_members()[j].spec_client_id() == client_id
                    &&& final(self).spec_members()[j].buffer() == old(self).spec_members()[j].buffer().push(msg)
                    &&& (forall|j2: int|
                        0 <= j2 < old(self).spec_members().len() && j2 != j ==> final(self).spec_members()[j2] == old(self).spec_members()[j2])
                },
            !old(self).spec_has_live(client_id) ==> (r matches Err(e) && e
                == ClientPoolError::PooledConnectionClosed(client_id)) && *final(self) == *old(self),
    {
        let ghost snap = self.connected_clients@;
        let n = self.connected_clients.len();
        let mut i: usize = 0;
        while i < n
            invariant
                old(self).wf(),
                snap == old(self).spec_members(),
                *self == *old(self),
                n == snap.len(),
                i <= n,
                forall|j: int|
                    0 <= j < i ==> !((#[trigger] snap[j]).is_live() && snap[j].spec_client_id()
                        == client_id),
            decreases n - i,
        {
            let target = {
                let member = &self.connected_clients[i];
                member.live() && member.client_id().id() == client_id.id()
            };
            if target {
                let member = &mut self.connected_clients[i];
                let res = member.push_request(msg);
                proof {
                    assert(snap[i as int].is_live() && snap[i as int].spec_client_id()
                        == client_id);
                    assert(self.connected_clients@ =~= snap.update(
                        i as int,
                        self.connected_clients@[i as int],
                    ));
                }
                match res {
                    Ok(()) => {
                        return Ok(());
                    }
                    Err(_) => {
                        proof {
                            assert(false);
                        }
                        return Err(ClientPoolError::PooledConnectionClosed(client_id));
                    }
                }
            }
            i = i + 1;
        }
        Err(ClientPoolError::PooledConnectionClosed(client_id))
    }

    /// Visits the sink at the given slot during a revolution: a live sink
    /// is drained into the batch against the empty replacement buffer, a
    /// dead one is noted on the reap list. Returns the empty buffer to
    /// reuse on the next visit.
    fn visit_member(
        &mut self,
        idx: usize,
        batch: &mut Vec<T>,
        dced: &mut Vec<NodeId>,
        replacement_vec: Vec<T>,
    ) -> (r: Vec<T>)
        requires
            idx < old(self).spec_members().len(),
            old(self).spec_members()[idx as int].is_pooled(),
            replacement_vec@.len() == 0,
        ensures
            r@.len() == 0,
            final(self).same_config(old(self)),
            final(self).spec_finished() == old(self).spec_finished(),
            final(self).spec_members().len() == old(self).spec_members().len(),
            final(self).spec_members() == old(self).spec_members().update(
                idx as int,
                final(self).spec_members()[idx as int],
            ),
            final(self).spec_members()[idx as int].spec_client_id() == old(self).spec_members()[idx as int].spec_client_id(),
            final(self).spec_members()[idx as int].is_pooled() == old(self).spec_members()[idx as int].is_pooled(),
            final(self).spec_members()[idx as int].is_live() == old(self).spec_members()[idx as int].is_live(),
            old(self).spec_members()[idx as int].is_live() ==> final(self).spec_members()[idx as int].buffer() == Seq::<T>::empty(),
            !old(self).spec_members()[idx as int].is_live() ==> final(self).spec_members()[idx as int] == old(self).spec_members()[idx as int],
            final(batch)@ == old(batch)@ + contribution(old(self).spec_members()[idx as int]),
            final(dced)@ == old(dced)@ + (if !old(self).spec_members()[idx as int].is_live() {
                seq![old(self).spec_members()[idx as int].spec_client_id()]
            } else {
                Seq::<NodeId>::empty()
            }),
    {
        let ghost pre = self.connected_clients@;
        let member = &mut self.connected_clients[idx];
        let out: Vec<T>;
        if member.is_dc() {
            let id = member.client_id();
            dced.push(id);
            out = replacement_vec;
        } else {
            match member.dump_requests(replacement_vec) {
                Ok(mut rqs) => {
                    batch.append(&mut rqs);
                    out = rqs;
                }
                Err(rv) => {
                    let id = member.client_id();
                    dced.push(id);
                    out = rv;
                }
            }
        }
        proof {
            assert(self.connected_clients@ =~= pre.update(
                idx as int,
                self.connected_clients@[idx as int],
            ));
            assert(batch@ =~= old(batch)@ + contribution(pre[idx as int]));
            assert(dced@ =~= old(dced)@ + (if !pre[idx as int].is_live() {
                seq![pre[idx as int].spec_client_id()]
            } else {
                Seq::<NodeId>::empty()
            }));
        }
        out
    }
}

} // verus!
