use vstd::prelude::*;

verus! {

/// One encoded frame, as it is handed to every subscriber.
pub struct UpdateScreen(pub Vec<u8>);

/// The character of the standard base64 alphabet for a 6-bit value:
/// `A`-`Z`, `a`-`z`, `0`-`9`, `+`, `/`.
pub open spec fn base64_digit(v: int) -> char {
    if v < 26 {
        (65 + v) as char
    } else if v < 52 {
        (97 + v - 26) as char
    } else if v < 62 {
        (48 + v - 52) as char
    } else if v == 62 {
        '+'
    } else {
        '/'
    }
}

/// The four characters for a group of one to three bytes: the group's bits,
/// six at a time, with `=` standing for each missing byte.
pub open spec fn base64_group(b: Seq<u8>) -> Seq<char> {
    let b0 = b[0] as int;
    let b1 = if b.len() > 1 {
        b[1] as int
    } else {
        0
    };
    let b2 = if b.len() > 2 {
        b[2] as int
    } else {
        0
    };
    seq![
        base64_digit(b0 / 4),
        base64_digit((b0 % 4) * 16 + b1 / 16),
        if b.len() > 1 {
            base64_digit((b1 % 16) * 4 + b2 / 64)
        } else {
            '='
        },
        if b.len() > 2 {
            base64_digit(b2 % 64)
        } else {
            '='
        },
    ]
}

/// The standard base64 text, with padding, of a byte sequence: one group of
/// four characters for every three bytes or part of them.
pub open spec fn base64_of(bytes: Seq<u8>) -> Seq<char>
    decreases bytes.len(),
{
    if bytes.len() == 0 {
        Seq::empty()
    } else if bytes.len() <= 3 {
        base64_group(bytes)
    } else {
        base64_group(bytes.take(3)) + base64_of(bytes.skip(3))
    }
}

/// Relies on base64::encode (standard alphabet, padded): the text for `bytes`,
/// four characters for every three bytes or part of them. It panics when that
/// length does not fit in a `usize`.
#[verifier::external_body]
fn base64_encode(bytes: &Vec<u8>) -> (r: String)
    requires
        4 * ((bytes@.len() + 2) / 3) <= usize::MAX,
    ensures
        r@ == base64_of(bytes@),
        r@.len() == 4 * ((bytes@.len() + 2) / 3),
{
    base64::encode(bytes)
}

impl UpdateScreen {
    /// The frame as base64 text, for transports that carry text.
    pub fn to_base64(&self) -> (r: String)
        requires
            4 * ((self.0@.len() + 2) / 3) <= usize::MAX,
        ensures
            r@ == base64_of(self.0@),
            r@.len() == 4 * ((self.0@.len() + 2) / 3),
    {
        base64_encode(&self.0)
    }
}

/// A live consumer's delivery endpoint.
pub trait Sink {
    /// Offers `frame` to the consumer without waiting. Returns false when the
    /// consumer cannot take it now (closed, full, or failed); such a sink is
    /// dropped from the registry and never offered a frame again.
    fn deliver(&self, frame: &UpdateScreen) -> bool;
}

/// The sinks of `sinks` whose delivery succeeded, in their order: `ok[i]` tells
/// whether `sinks[i]` accepted its frame.
pub open spec fn kept<S>(sinks: Seq<S>, ok: Seq<bool>) -> Seq<S>
    decreases sinks.len(),
{
    if sinks.len() == 0 || ok.len() == 0 {
        Seq::empty()
    } else {
        let rest = kept(sinks.drop_last(), ok.drop_last());
        if ok.last() {
            rest.push(sinks.last())
        } else {
            rest
        }
    }
}

/// How many deliveries of `ok` succeeded.
pub open spec fn successes(ok: Seq<bool>) -> nat
    decreases ok.len(),
{
    if ok.len() == 0 {
        0
    } else {
        successes(ok.drop_last()) + if ok.last() {
            1nat
        } else {
            0nat
        }
    }
}

/// The offers that one broadcast of `frame` makes: one to each sink, in order.
pub open spec fn offers_of<S>(sinks: Seq<S>, frame: Seq<u8>) -> Seq<(S, Seq<u8>)> {
    sinks.map_values(|sink: S| (sink, frame))
}

/// The collection of delivery sinks that a broadcast reaches.
pub struct Registry<S> {
    sinks: Vec<S>,
    offers: Ghost<Seq<(S, Seq<u8>)>>,
}

impl<S: Sink> Registry<S> {
    /// The registered sinks, in the order they joined.
    pub closed spec fn sinks(&self) -> Seq<S> {
        self.sinks@
    }

    /// Every delivery this registry has made, in order: the sink, and the frame
    /// it was offered.
    pub closed spec fn offers(&self) -> Seq<(S, Seq<u8>)> {
        self.offers@
    }

    /// An empty registry, which has made no delivery.
    pub fn new() -> (r: Self)
        ensures
            r.sinks().len() == 0,
            r.offers().len() == 0,
    {
        Registry { sinks: Vec::new(), offers: Ghost(Seq::empty()) }
    }

    /// The number of registered sinks.
    pub fn len(&self) -> (r: usize)
        ensures
            r == self.sinks().len(),
    {
        self.sinks.len()
    }

    /// Whether no sink is registered.
    pub fn is_empty(&self) -> (r: bool)
        ensures
            r == (self.sinks().len() == 0),
    {
        self.sinks.len() == 0
    }

    /// Offers `frame` to the new sink at once; the sink joins the registry only
    /// if it took it. Returns whether it joined.
    pub fn subscribe(&mut self, sink: S, frame: &UpdateScreen) -> (accepted: bool)
        ensures
            final(self).sinks() == if accepted {
                old(self).sinks().push(sink)
            } else {
                old(self).sinks()
            },
            final(self).offers() == old(self).offers().push((sink, frame.0@)),
    {
        let accepted = sink.deliver(frame);
        self.offers = Ghost(self.offers@.push((sink, frame.0@)));
        if accepted {
            self.sinks.push(sink);
        }
        accepted
    }

    /// Keeps exactly the sinks whose entry of `ok` is true, in their order.
    pub fn retain_delivered(&mut self, ok: &Vec<bool>)
        requires
            ok@.len() == old(self).sinks().len(),
        ensures
            final(self).sinks() == kept(old(self).sinks(), ok@),
            final(self).offers() == old(self).offers(),
    {
        let ghost start = self.sinks@;
        let n = ok.len();
        let mut k: usize = 0;
        let mut j: usize = 0;
        while k < n
            invariant
                n == ok@.len(),
                n == start.len(),
                k <= n,
                self.offers == old(self).offers,
                j == kept(start.take(k as int), ok@.take(k as int)).len(),
                self.sinks@ == kept(start.take(k as int), ok@.take(k as int)) + start.skip(
                    k as int,
                ),
            decreases n - k,
        {
            let ghost prefix = kept(start.take(k as int), ok@.take(k as int));
            proof {
                lemma_kept_members(start.take(k as int), ok@.take(k as int));
                assert(start.take(k + 1).drop_last() =~= start.take(k as int));
                assert(ok@.take(k + 1).drop_last() =~= ok@.take(k as int));
                assert(self.sinks@[j as int] == start[k as int]);
            }
            if ok[k] {
                proof {
                    assert(prefix.push(start[k as int]) + start.skip(k + 1) =~= prefix + start.skip(
                        k as int,
                    ));
                }
                j = j + 1;
            } else {
                self.sinks.remove(j);
                proof {
                    assert(self.sinks@ =~= prefix + start.skip(k + 1));
                }
            }
            k = k + 1;
        }
        proof {
            assert(start.take(n as int) =~= start);
            assert(ok@.take(n as int) =~= ok@);
            assert(self.sinks@ =~= kept(start, ok@));
        }
    }

    /// One broadcast pass: offers `frame` once to every registered sink and
    /// drops each sink that did not take it. Returns the outcome of each
    /// delivery, in the order of the sinks before the pass.
    pub fn broadcast_and_prune(&mut self, frame: &UpdateScreen) -> (ok: Vec<bool>)
        ensures
            ok@.len() == old(self).sinks().len(),
            final(self).sinks() == kept(old(self).sinks(), ok@),
            final(self).offers() == old(self).offers() + offers_of(old(self).sinks(), frame.0@),
    {
        let mut ok: Vec<bool> = Vec::new();
        let n = self.sinks.len();
        let mut i: usize = 0;
        while i < n
            invariant
                n == self.sinks@.len(),
                self.sinks@ == old(self).sinks@,
                i <= n,
                ok@.len() == i,
                self.offers@ == old(self).offers@ + offers_of(self.sinks@.take(i as int), frame.0@),
            decreases n - i,
        {
            let delivered = self.sinks[i].deliver(frame);
            self.offers = Ghost(self.offers@.push((self.sinks@[i as int], frame.0@)));
            proof {
                assert(self.sinks@.take(i + 1) =~= self.sinks@.take(i as int).push(self.sinks@[i as int]));
                assert(offers_of(self.sinks@.take(i + 1), frame.0@) =~= offers_of(
                    self.sinks@.take(i as int),
                    frame.0@,
                ).push((self.sinks@[i as int], frame.0@)));
            }
            ok.push(delivered);
            i = i + 1;
        }
        proof {
            assert(self.sinks@.take(n as int) =~= self.sinks@);
        }
        self.retain_delivered(&ok);
        ok
    }
}

/// A broadcast keeps every sink that took its frame and nothing else: the
/// registry afterwards holds one entry for each successful delivery, each a
/// sink that was registered before, in the same order.
pub proof fn lemma_kept_members<S>(sinks: Seq<S>, ok: Seq<bool>)
    requires
        ok.len() == sinks.len(),
    ensures
        kept(sinks, ok).len() == successes(ok),
        kept(sinks, ok).len() <= sinks.len(),
        forall|i: int| 0 <= i < sinks.len() && ok[i] ==> kept(sinks, ok).contains(sinks[i]),
        forall|x: S| kept(sinks, ok).contains(x) ==> sinks.contains(x),
    decreases sinks.len(),
{
    if sinks.len() > 0 {
        let s0 = sinks.drop_last();
        let o0 = ok.drop_last();
        lemma_kept_members(s0, o0);
        let rest = kept(s0, o0);
        let all = kept(sinks, ok);
        assert(all == if ok.last() { rest.push(sinks.last()) } else { rest });
        assert forall|i: int| 0 <= i < sinks.len() && ok[i] implies kept(sinks, ok).contains(
            sinks[i],
        ) by {
            if i < sinks.len() - 1 {
                assert(s0[i] == sinks[i]);
                assert(o0[i] == ok[i]);
                assert(rest.contains(s0[i]));
                let w = choose|w: int| 0 <= w < rest.len() && rest[w] == s0[i];
                if ok.last() {
                    assert(kept(sinks, ok)[w] == sinks[i]);
                }
            } else {
                assert(kept(sinks, ok)[rest.len() as int] == sinks[i]);
            }
        }
        assert forall|x: S| kept(sinks, ok).contains(x) implies sinks.contains(x) by {
            let w = choose|w: int| 0 <= w < kept(sinks, ok).len() && kept(sinks, ok)[w] == x;
            if w < rest.len() {
                assert(rest[w] == x);
                assert(rest.contains(x));
                assert(s0.contains(x));
                let v = choose|v: int| 0 <= v < s0.len() && s0[v] == x;
                assert(s0[v] == sinks[v]);
                assert(sinks[v] == x);
            } else {
                assert(sinks[sinks.len() - 1] == x);
            }
        }
    }
}

/// A sink that fails its delivery while every other sink succeeds is the one
/// entry that the broadcast removes: the registry shrinks by exactly one.
pub proof fn lemma_prune_on_failure<S>(sinks: Seq<S>, ok: Seq<bool>, i: int)
    requires
        ok.len() == sinks.len(),
        0 <= i < sinks.len(),
        !ok[i],
        forall|j: int| 0 <= j < ok.len() && j != i ==> ok[j],
    ensures
        kept(sinks, ok) == sinks.remove(i),
        kept(sinks, ok).len() == sinks.len() - 1,
    decreases sinks.len(),
{
    let s0 = sinks.drop_last();
    let o0 = ok.drop_last();
    if i == sinks.len() - 1 {
        lemma_all_kept(s0, o0);
        assert(sinks.remove(i) =~= s0);
    } else {
        lemma_prune_on_failure(s0, o0, i);
        assert(sinks.remove(i) =~= s0.remove(i).push(sinks.last()));
    }
}

/// A broadcast in which every delivery succeeds leaves the registry as it was.
pub proof fn lemma_all_kept<S>(sinks: Seq<S>, ok: Seq<bool>)
    requires
        ok.len() == sinks.len(),
        forall|j: int| 0 <= j < ok.len() ==> ok[j],
    ensures
        kept(sinks, ok) == sinks,
    decreases sinks.len(),
{
    if sinks.len() > 0 {
        lemma_all_kept(sinks.drop_last(), ok.drop_last());
        assert(sinks.drop_last().push(sinks.last()) =~= sinks);
    } else {
        assert(sinks =~= Seq::empty());
    }
}

/// A broadcast corrupts nothing: a registry without duplicate entries has
/// none after the pass either.
pub proof fn lemma_kept_no_duplicates<S>(sinks: Seq<S>, ok: Seq<bool>)
    requires
        ok.len() == sinks.len(),
        sinks.no_duplicates(),
    ensures
        kept(sinks, ok).no_duplicates(),
    decreases sinks.len(),
{
    if sinks.len() > 0 {
        let s0 = sinks.drop_last();
        let o0 = ok.drop_last();
        assert(s0.no_duplicates()) by {
            assert forall|i: int, j: int| 0 <= i < s0.len() && 0 <= j < s0.len() && i != j implies s0[i]
                != s0[j] by {
                assert(s0[i] == sinks[i] && s0[j] == sinks[j]);
            }
        }
        lemma_kept_no_duplicates(s0, o0);
        lemma_kept_members(s0, o0);
        let rest = kept(s0, o0);
        if ok.last() {
            assert(!rest.contains(sinks.last())) by {
                if rest.contains(sinks.last()) {
                    assert(s0.contains(sinks.last()));
                    let v = choose|v: int| 0 <= v < s0.len() && s0[v] == sinks.last();
                    assert(s0[v] == sinks[v]);
                    assert(sinks[v] != sinks[sinks.len() - 1]);
                }
            }
            let all = rest.push(sinks.last());
            assert forall|i: int, j: int| 0 <= i < all.len() && 0 <= j < all.len() && i != j implies all[i]
                != all[j] by {
                if i < rest.len() && j < rest.len() {
                } else if i < rest.len() {
                    assert(rest.contains(all[i]));
                } else {
                    assert(rest.contains(all[j]));
                }
            }
        }
    }
}

/// One broadcast pass offers its frame, and only its frame, to each sink of a
/// registry without duplicate entries once: no two offers of the pass go to
/// the same sink.
pub proof fn lemma_one_offer_per_sink<S>(sinks: Seq<S>, frame: Seq<u8>)
    requires
        sinks.no_duplicates(),
    ensures
        offers_of(sinks, frame).len() == sinks.len(),
        forall|i: int| 0 <= i < sinks.len() ==> offers_of(sinks, frame)[i] == (sinks[i], frame),
        forall|i: int, j: int|
            0 <= i < sinks.len() && 0 <= j < sinks.len() && i != j ==> offers_of(sinks, frame)[i].0
                != offers_of(sinks, frame)[j].0,
{
}

} // verus!
