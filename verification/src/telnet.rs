//! Telnet byte handling: a streaming filter that strips IAC command
//! sequences from the inbound stream and answers every option offer with a
//! refusal, and the escaping of outbound data.

use vstd::prelude::*;

verus! {

/// Interpret As Command.
pub const IAC: u8 = 255;
/// "Please stop performing this option."
pub const DONT: u8 = 254;
/// "Please perform this option."
pub const DO: u8 = 253;
/// "I will not perform this option."
pub const WONT: u8 = 252;
/// "I want to perform this option."
pub const WILL: u8 = 251;
/// Start of subnegotiation.
pub const SB: u8 = 250;
/// End of subnegotiation.
pub const SE: u8 = 240;

/// Where the filter stands between two bytes of the inbound stream.
#[derive(Clone, Copy, PartialEq, Eq, Structural)]
pub enum TelnetState {
    /// Plain data.
    Data,
    /// Just saw IAC.
    Iac,
    /// Saw IAC followed by WILL / WONT / DO / DONT; the option byte comes next.
    Opt(u8),
    /// Inside a subnegotiation (skipped).
    Sub,
    /// Saw IAC inside a subnegotiation.
    SubIac,
}

/// The reply owed to an option command: WILL is refused with DONT, DO with
/// WONT; WONT and DONT need no answer (0 stands for "no reply").
pub open spec fn refusal_for(cmd: u8) -> u8 {
    if cmd == WILL {
        DONT
    } else if cmd == DO {
        WONT
    } else {
        0
    }
}

/// One byte through the filter: the next state, the data bytes it yields and
/// the reply bytes it owes the peer.
pub open spec fn telnet_step(st: TelnetState, b: u8) -> (TelnetState, Seq<u8>, Seq<u8>) {
    match st {
        TelnetState::Data => if b == IAC {
            (TelnetState::Iac, seq![], seq![])
        } else {
            (TelnetState::Data, seq![b], seq![])
        },
        TelnetState::Iac => if b == IAC {
            (TelnetState::Data, seq![IAC], seq![])
        } else if b == WILL || b == WONT || b == DO || b == DONT {
            (TelnetState::Opt(b), seq![], seq![])
        } else if b == SB {
            (TelnetState::Sub, seq![], seq![])
        } else {
            (TelnetState::Data, seq![], seq![])
        },
        TelnetState::Opt(cmd) => if refusal_for(cmd) != 0 {
            (TelnetState::Data, seq![], seq![IAC, refusal_for(cmd), b])
        } else {
            (TelnetState::Data, seq![], seq![])
        },
        TelnetState::Sub => if b == IAC {
            (TelnetState::SubIac, seq![], seq![])
        } else {
            (TelnetState::Sub, seq![], seq![])
        },
        TelnetState::SubIac => if b == SE {
            (TelnetState::Data, seq![], seq![])
        } else {
            (TelnetState::Sub, seq![], seq![])
        },
    }
}

/// A whole input through the filter, byte after byte, starting in `st`.
pub open spec fn telnet_run(st: TelnetState, input: Seq<u8>) -> (TelnetState, Seq<u8>, Seq<u8>)
    decreases input.len(),
{
    if input.len() == 0 {
        (st, seq![], seq![])
    } else {
        let (s1, d1, r1) = telnet_run(st, input.drop_last());
        let (s2, d2, r2) = telnet_step(s1, input.last());
        (s2, d1 + d2, r1 + r2)
    }
}

/// Outbound escaping: every 0xFF data byte is doubled.
pub open spec fn iac_escape(data: Seq<u8>) -> Seq<u8>
    decreases data.len(),
{
    if data.len() == 0 {
        seq![]
    } else if data.last() == IAC {
        iac_escape(data.drop_last()) + seq![IAC, IAC]
    } else {
        iac_escape(data.drop_last()) + seq![data.last()]
    }
}

/// `replies` is a run of refusals: triples IAC, DONT|WONT, option.
pub open spec fn only_refusals(replies: Seq<u8>) -> bool
    decreases replies.len(),
{
    if replies.len() == 0 {
        true
    } else {
        &&& replies.len() >= 3
        &&& replies[replies.len() - 3] == IAC
        &&& (replies[replies.len() - 2] == DONT || replies[replies.len() - 2] == WONT)
        &&& only_refusals(replies.subrange(0, replies.len() - 3))
    }
}

/// Streaming telnet filter: extracts data bytes and produces IAC replies
/// (every option is refused: WILL -> DONT, DO -> WONT).
pub struct TelnetFilter {
    state: TelnetState,
}

impl View for TelnetFilter {
    type V = TelnetState;

    closed spec fn view(&self) -> TelnetState {
        self.state
    }
}

impl Default for TelnetFilter {
    fn default() -> (f: Self)
        ensures
            f@ == TelnetState::Data,
    {
        TelnetFilter { state: TelnetState::Data }
    }
}

impl TelnetFilter {
    /// Feeds `input` through the filter: returns the data bytes, appends the
    /// replies owed to the peer to `replies`, and keeps the state for the
    /// next chunk.
    pub fn feed(&mut self, input: &[u8], replies: &mut Vec<u8>) -> (data: Vec<u8>)
        ensures
            telnet_run(old(self)@, input@) == (final(self)@, data@, final(replies)@.subrange(
                old(replies)@.len() as int,
                final(replies)@.len() as int,
            )),
            final(replies)@.subrange(0, old(replies)@.len() as int) == old(replies)@,
            final(replies)@.len() >= old(replies)@.len(),
            (final(replies)@.len() - old(replies)@.len()) % 3 == 0,
            data@.len() <= input@.len(),
            exists|idx: Seq<int>| embeds(idx, data@, input@),
    {
        let ghost st0 = self.state;
        let ghost r0 = replies@;
        let mut data: Vec<u8> = Vec::with_capacity(input.len());
        let n = input.len();
        let mut i: usize = 0;
        while i < n
            invariant
                n == input@.len(),
                i <= n,
                replies@.len() >= r0.len(),
                replies@.subrange(0, r0.len() as int) == r0,
                telnet_run(st0, input@.take(i as int)) == (self.state, data@, replies@.subrange(
                    r0.len() as int,
                    replies@.len() as int,
                )),
            decreases n - i,
        {
            let b = input[i];
            let ghost before = replies@;
            let next = match self.state {
                TelnetState::Data => {
                    if b == IAC {
                        TelnetState::Iac
                    } else {
                        data.push(b);
                        TelnetState::Data
                    }
                },
                TelnetState::Iac => {
                    if b == IAC {
                        data.push(IAC);
                        TelnetState::Data
                    } else if b == WILL || b == WONT || b == DO || b == DONT {
                        TelnetState::Opt(b)
                    } else if b == SB {
                        TelnetState::Sub
                    } else {
                        TelnetState::Data
                    }
                },
                TelnetState::Opt(cmd) => {
                    let reply: u8 = if cmd == WILL {
                        DONT
                    } else if cmd == DO {
                        WONT
                    } else {
                        0
                    };
                    if reply != 0 {
                        replies.push(IAC);
                        replies.push(reply);
                        replies.push(b);
                    }
                    TelnetState::Data
                },
                TelnetState::Sub => {
                    if b == IAC {
                        TelnetState::SubIac
                    } else {
                        TelnetState::Sub
                    }
                },
                TelnetState::SubIac => {
                    if b == SE {
                        TelnetState::Data
                    } else {
                        TelnetState::Sub
                    }
                },
            };
            self.state = next;
            proof {
                assert(input@.take(i + 1).drop_last() =~= input@.take(i as int));
                assert(replies@.subrange(0, r0.len() as int) =~= r0);
                assert(replies@.subrange(r0.len() as int, replies@.len() as int) =~= before.subrange(
                    r0.len() as int,
                    before.len() as int,
                ) + replies@.subrange(before.len() as int, replies@.len() as int));
            }
            i = i + 1;
        }
        proof {
            assert(input@.take(n as int) =~= input@);
            lemma_feed_shape(st0, input@);
        }
        data
    }
}

/// Escapes outbound data for the wire: each 0xFF byte is sent twice.
pub fn escape_iac(data: &[u8]) -> (out: Vec<u8>)
    ensures
        out@ == iac_escape(data@),
{
    let mut out: Vec<u8> = Vec::with_capacity(data.len());
    let n = data.len();
    let mut i: usize = 0;
    while i < n
        invariant
            n == data@.len(),
            i <= n,
            out@ == iac_escape(data@.take(i as int)),
        decreases n - i,
    {
        let b = data[i];
        out.push(b);
        if b == IAC {
            out.push(IAC);
        }
        proof {
            assert(data@.take(i + 1).drop_last() =~= data@.take(i as int));
        }
        i = i + 1;
    }
    proof {
        assert(data@.take(n as int) =~= data@);
    }
    out
}

/// Feeding a stream in two chunks gives the same data, the same replies and
/// the same final state as feeding it in one piece.
pub proof fn lemma_feed_in_chunks(st: TelnetState, a: Seq<u8>, b: Seq<u8>)
    ensures
        ({
            let (s1, d1, r1) = telnet_run(st, a);
            let (s2, d2, r2) = telnet_run(s1, b);
            telnet_run(st, a + b) == (s2, d1 + d2, r1 + r2)
        }),
    decreases b.len(),
{
    if b.len() == 0 {
        assert(a + b =~= a);
        let (s1, d1, r1) = telnet_run(st, a);
        assert(d1 + seq![] =~= d1);
        assert(r1 + seq![] =~= r1);
    } else {
        let bl = b.drop_last();
        lemma_feed_in_chunks(st, a, bl);
        assert((a + b).drop_last() =~= a + bl);
        assert((a + b).last() == b.last());
        let (s1, d1, r1) = telnet_run(st, a);
        let (s2, d2, r2) = telnet_run(s1, bl);
        let (s3, d3, r3) = telnet_step(s2, b.last());
        assert(d1 + d2 + d3 =~= d1 + (d2 + d3));
        assert(r1 + r2 + r3 =~= r1 + (r2 + r3));
    }
}

/// Escaped data, fed to a filter that stands in plain data, comes back
/// unchanged, with no replies and the filter back in plain data.
pub proof fn lemma_escape_roundtrip(data: Seq<u8>)
    ensures
        telnet_run(TelnetState::Data, iac_escape(data)) == (TelnetState::Data, data, Seq::<u8>::empty()),
    decreases data.len(),
{
    if data.len() > 0 {
        let init = data.drop_last();
        let b = data.last();
        lemma_escape_roundtrip(init);
        let tail: Seq<u8> = if b == IAC {
            seq![IAC, IAC]
        } else {
            seq![b]
        };
        assert(iac_escape(data) == iac_escape(init) + tail);
        lemma_feed_in_chunks(TelnetState::Data, iac_escape(init), tail);
        let e = Seq::<u8>::empty();
        assert(telnet_run(TelnetState::Data, e) == (TelnetState::Data, e, e));
        if b == IAC {
            let one: Seq<u8> = seq![IAC];
            assert(tail.drop_last() =~= one);
            assert(one.drop_last() =~= e);
            assert(telnet_run(TelnetState::Data, one) == (TelnetState::Iac, e + e, e + e));
            assert(e + e =~= e);
            assert(telnet_run(TelnetState::Data, tail) == (TelnetState::Data, e + seq![IAC], e + e));
        } else {
            assert(tail.drop_last() =~= e);
            assert(telnet_run(TelnetState::Data, tail) == (TelnetState::Data, e + seq![b], e + e));
        }
        assert(e + seq![b] =~= seq![b]);
        assert(e + e =~= e);
        let (s, d, r) = telnet_run(TelnetState::Data, tail);
        assert(d =~= seq![b]);
        assert(r =~= Seq::<u8>::empty());
        assert(init + seq![b] =~= data);
        assert(Seq::<u8>::empty() + Seq::<u8>::empty() =~= Seq::<u8>::empty());
    }
}

proof fn lemma_refusals_append(r: Seq<u8>, t: Seq<u8>)
    requires
        only_refusals(r),
        t.len() == 0 || (t.len() == 3 && t[0] == IAC && (t[1] == DONT || t[1] == WONT)),
    ensures
        only_refusals(r + t),
{
    if t.len() == 0 {
        assert(r + t =~= r);
    } else {
        assert((r + t).subrange(0, (r + t).len() - 3) =~= r);
    }
}

/// The filter never agrees to anything: whatever it is fed, every reply it
/// produces is IAC DONT x or IAC WONT x.
pub proof fn lemma_replies_are_refusals(st: TelnetState, input: Seq<u8>)
    ensures
        only_refusals(telnet_run(st, input).2),
    decreases input.len(),
{
    if input.len() > 0 {
        lemma_replies_are_refusals(st, input.drop_last());
        let (s1, d1, r1) = telnet_run(st, input.drop_last());
        lemma_refusals_append(r1, telnet_step(s1, input.last()).2);
    }
}

proof fn lemma_refusals_len(r: Seq<u8>)
    requires
        only_refusals(r),
    ensures
        r.len() % 3 == 0,
    decreases r.len(),
{
    if r.len() > 0 {
        lemma_refusals_len(r.subrange(0, r.len() - 3));
    }
}

/// `idx` picks the bytes of `d` out of `input`, in order: `d` is a
/// subsequence of `input`.
pub open spec fn embeds(idx: Seq<int>, d: Seq<u8>, input: Seq<u8>) -> bool {
    &&& idx.len() == d.len()
    &&& forall|k: int| 0 <= k < idx.len() ==> 0 <= #[trigger] idx[k] < input.len() && d[k] == input[idx[k]]
    &&& forall|k: int, l: int| 0 <= k < l < idx.len() ==> #[trigger] idx[k] < #[trigger] idx[l]
}

proof fn lemma_data_embedding(st: TelnetState, input: Seq<u8>) -> (idx: Seq<int>)
    ensures
        embeds(idx, telnet_run(st, input).1, input),
        telnet_run(st, input).1.len() <= input.len(),
    decreases input.len(),
{
    if input.len() == 0 {
        Seq::empty()
    } else {
        let init = input.drop_last();
        let idx1 = lemma_data_embedding(st, init);
        let (s1, d1, r1) = telnet_run(st, init);
        let (s2, d2, r2) = telnet_step(s1, input.last());
        let d = d1 + d2;
        let n = input.len() - 1;
        if d2.len() == 0 {
            assert(d =~= d1);
            idx1
        } else {
            assert(d2 =~= seq![input.last()]);
            let idx = idx1.push(n);
            assert forall|k: int| 0 <= k < idx.len() implies 0 <= #[trigger] idx[k] < input.len()
                && d[k] == input[idx[k]] by {
                if k < idx1.len() {
                    assert(idx[k] == idx1[k]);
                    assert(d[k] == d1[k]);
                    assert(init[idx1[k]] == input[idx1[k]]);
                }
            }
            assert forall|k: int, l: int| 0 <= k < l < idx.len() implies #[trigger] idx[k]
                < #[trigger] idx[l] by {
                if l < idx1.len() {
                    assert(idx[k] == idx1[k] && idx[l] == idx1[l]);
                } else {
                    assert(idx[k] == idx1[k]);
                }
            }
            idx
        }
    }
}

/// Where a data byte may come from: the input byte at `p` is plain data (the
/// filter stood in plain data before it and it is not IAC), or it is the
/// second IAC of an escaped IAC IAC pair.
pub open spec fn data_source(st: TelnetState, input: Seq<u8>, p: int) -> bool {
    let before = telnet_run(st, input.take(p)).0;
    ||| before == TelnetState::Data && input[p] != IAC
    ||| before == TelnetState::Iac && input[p] == IAC
}

/// Data bytes come only from plain data or from an escaped IAC IAC: each byte
/// the filter returns is picked, in order, from an input position that is
/// plain data or the second byte of IAC IAC. In particular IAC followed by
/// any other byte (a command such as GA or NOP, an option negotiation or a
/// subnegotiation) yields no data.
pub proof fn lemma_data_sources(st: TelnetState, input: Seq<u8>) -> (idx: Seq<int>)
    ensures
        embeds(idx, telnet_run(st, input).1, input),
        forall|k: int| 0 <= k < idx.len() ==> data_source(st, input, #[trigger] idx[k]),
    decreases input.len(),
{
    if input.len() == 0 {
        Seq::empty()
    } else {
        let init = input.drop_last();
        let idx1 = lemma_data_sources(st, init);
        let (s1, d1, r1) = telnet_run(st, init);
        let (s2, d2, r2) = telnet_step(s1, input.last());
        let d = d1 + d2;
        let n = input.len() - 1;
        assert forall|k: int| 0 <= k < idx1.len() implies data_source(st, input, #[trigger] idx1[k]) by {
            let p = idx1[k];
            assert(input.take(p) =~= init.take(p));
            assert(input[p] == init[p]);
        }
        if d2.len() == 0 {
            assert(d =~= d1);
            idx1
        } else {
            assert(d2 =~= seq![input.last()]);
            assert(input.take(n) =~= init);
            assert(data_source(st, input, n));
            let idx = idx1.push(n);
            assert forall|k: int| 0 <= k < idx.len() implies 0 <= #[trigger] idx[k] < input.len()
                && d[k] == input[idx[k]] by {
                if k < idx1.len() {
                    assert(idx[k] == idx1[k]);
                    assert(d[k] == d1[k]);
                    assert(init[idx1[k]] == input[idx1[k]]);
                }
            }
            assert forall|k: int, l: int| 0 <= k < l < idx.len() implies #[trigger] idx[k]
                < #[trigger] idx[l] by {
                if l < idx1.len() {
                    assert(idx[k] == idx1[k] && idx[l] == idx1[l]);
                } else {
                    assert(idx[k] == idx1[k]);
                }
            }
            assert forall|k: int| 0 <= k < idx.len() implies data_source(st, input, #[trigger] idx[k]) by {
                if k < idx1.len() {
                    assert(idx[k] == idx1[k]);
                }
            }
            idx
        }
    }
}

/// Whatever state the filter is in and whatever it is fed: the replies come
/// in whole triples (IAC, DONT or WONT, option), and the data it returns is
/// a subsequence of its input, so never longer than it.
pub proof fn lemma_feed_shape(st: TelnetState, input: Seq<u8>)
    ensures
        telnet_run(st, input).2.len() % 3 == 0,
        only_refusals(telnet_run(st, input).2),
        telnet_run(st, input).1.len() <= input.len(),
        exists|idx: Seq<int>| embeds(idx, telnet_run(st, input).1, input),
{
    lemma_replies_are_refusals(st, input);
    lemma_refusals_len(telnet_run(st, input).2);
    let idx = lemma_data_embedding(st, input);
}

/// The option negotiations (command, option) the stream carries, in order:
/// an IAC followed by WILL / WONT / DO / DONT and the option byte, outside
/// any subnegotiation; with the state the parse ends in.
pub open spec fn negotiations(st: TelnetState, input: Seq<u8>) -> (TelnetState, Seq<(u8, u8)>)
    decreases input.len(),
{
    if input.len() == 0 {
        (st, Seq::empty())
    } else {
        let (s1, n1) = negotiations(st, input.drop_last());
        let b = input.last();
        let s2 = telnet_step(s1, b).0;
        match s1 {
            TelnetState::Opt(cmd) => (s2, n1.push((cmd, b))),
            _ => (s2, n1),
        }
    }
}

/// The answer owed to each negotiation: IAC DONT o to WILL o, IAC WONT o to
/// DO o, nothing to WONT or DONT.
pub open spec fn refusals_of(ns: Seq<(u8, u8)>) -> Seq<u8>
    decreases ns.len(),
{
    if ns.len() == 0 {
        Seq::empty()
    } else {
        let (cmd, o) = ns.last();
        let rest = refusals_of(ns.drop_last());
        if cmd == WILL {
            rest + seq![IAC, DONT, o]
        } else if cmd == DO {
            rest + seq![IAC, WONT, o]
        } else {
            rest
        }
    }
}

/// Exactly one refusal per offer, in stream order: the replies are IAC DONT o
/// for each IAC WILL o and IAC WONT o for each IAC DO o met outside
/// subnegotiation, and nothing else; WILL or DO is never sent.
pub proof fn lemma_one_refusal_per_offer(st: TelnetState, input: Seq<u8>)
    ensures
        negotiations(st, input).0 == telnet_run(st, input).0,
        telnet_run(st, input).2 == refusals_of(negotiations(st, input).1),
    decreases input.len(),
{
    if input.len() > 0 {
        let init = input.drop_last();
        lemma_one_refusal_per_offer(st, init);
        let (s1, n1) = negotiations(st, init);
        let (t1, d1, r1) = telnet_run(st, init);
        let b = input.last();
        match s1 {
            TelnetState::Opt(cmd) => {
                let ns = n1.push((cmd, b));
                assert(ns.drop_last() =~= n1);
                if cmd != WILL && cmd != DO {
                    assert(r1 + seq![] =~= r1);
                }
            },
            _ => {
                assert(r1 + seq![] =~= r1);
            },
        }
    }
}

} // verus!
