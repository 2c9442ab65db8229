//! The binary wire format of [`Commands`].
//!
//! Integers are little-endian: a message starts with its variant index as a
//! `u32`; a coordinate is an `i32` in two's complement; a colour channel,
//! width or height a `u32`; an id a single byte; a text is its byte length
//! as a `u64` followed by its UTF-8 bytes; a list is its element count as a
//! `u64` followed by the elements. Struct fields follow in declaration
//! order.
use crate::net_common::{
    Commands, CommandsView, NetBuilding, NetColour, NetPlayer, NetPlayerInfo, NetPosition,
    PlayerView, PositionMap, RegistrationInfo, WorldMap, players_view,
};
use vstd::bytes::*;
use vstd::prelude::*;
use vstd::slice::*;
use vstd::utf8::*;

verus! {

pub open spec fn enc_u32(x: u32) -> Seq<u8> {
    spec_u32_to_le_bytes(x)
}

pub open spec fn enc_i32(x: i32) -> Seq<u8> {
    spec_u32_to_le_bytes(x as u32)
}

pub open spec fn dec_i32(s: Seq<u8>) -> i32 {
    spec_u32_from_le_bytes(s) as i32
}

pub open spec fn enc_len(n: nat) -> Seq<u8> {
    spec_u64_to_le_bytes(n as u64)
}

pub open spec fn enc_str(c: Seq<char>) -> Seq<u8> {
    enc_len(encode_utf8(c).len()) + encode_utf8(c)
}

pub open spec fn enc_pos(p: NetPosition) -> Seq<u8> {
    enc_i32(p.x) + enc_i32(p.y)
}

pub open spec fn dec_pos(s: Seq<u8>) -> NetPosition {
    NetPosition { x: dec_i32(s.subrange(0, 4)), y: dec_i32(s.subrange(4, 8)) }
}

pub open spec fn enc_colour(c: NetColour) -> Seq<u8> {
    enc_u32(c.r) + enc_u32(c.g) + enc_u32(c.b) + enc_u32(c.a)
}

pub open spec fn dec_colour(s: Seq<u8>) -> NetColour {
    NetColour {
        r: spec_u32_from_le_bytes(s.subrange(0, 4)),
        g: spec_u32_from_le_bytes(s.subrange(4, 8)),
        b: spec_u32_from_le_bytes(s.subrange(8, 12)),
        a: spec_u32_from_le_bytes(s.subrange(12, 16)),
    }
}

pub open spec fn enc_building(b: NetBuilding) -> Seq<u8> {
    enc_pos(b.position) + enc_u32(b.width) + enc_u32(b.height) + enc_colour(b.colour)
}

pub open spec fn dec_building(s: Seq<u8>) -> NetBuilding {
    NetBuilding {
        position: dec_pos(s.subrange(0, 8)),
        width: spec_u32_from_le_bytes(s.subrange(8, 12)),
        height: spec_u32_from_le_bytes(s.subrange(12, 16)),
        colour: dec_colour(s.subrange(16, 32)),
    }
}

pub open spec fn enc_entry(e: PositionMap) -> Seq<u8> {
    seq![e.id] + enc_pos(e.pos)
}

pub open spec fn dec_entry(s: Seq<u8>) -> PositionMap {
    PositionMap { id: s[0], pos: dec_pos(s.subrange(1, 9)) }
}

pub open spec fn enc_player(p: PlayerView) -> Seq<u8> {
    enc_pos(p.position) + seq![p.id] + enc_str(p.name) + enc_colour(p.colour)
}

pub open spec fn enc_items<T>(xs: Seq<T>, e: spec_fn(T) -> Seq<u8>) -> Seq<u8>
    decreases xs.len(),
{
    if xs.len() == 0 {
        Seq::empty()
    } else {
        enc_items(xs.drop_last(), e) + e(xs.last())
    }
}

pub open spec fn enc_list<T>(xs: Seq<T>, e: spec_fn(T) -> Seq<u8>) -> Seq<u8> {
    enc_len(xs.len()) + enc_items(xs, e)
}

/// The bytes of a message.
pub open spec fn encode_spec(m: CommandsView) -> Seq<u8> {
    match m {
        CommandsView::RegisterPlayer { name, colour } => enc_u32(0) + enc_str(name) + enc_colour(colour),
        CommandsView::Move(p) => enc_u32(1) + enc_pos(p),
        CommandsView::MovedPlayers(v) => enc_u32(2) + enc_list(v, |e: PositionMap| enc_entry(e)),
        CommandsView::SendMap(bs) => enc_u32(3) + enc_list(bs, |b: NetBuilding| enc_building(b)),
        CommandsView::SendPlayerInfo { players, your_num } => enc_u32(4) + enc_list(
            players,
            |p: PlayerView| enc_player(p),
        ) + seq![your_num],
        CommandsView::AddPlayer(p) => enc_u32(5) + enc_player(p),
        CommandsView::RemovePlayer(id) => enc_u32(6) + seq![id],
        CommandsView::AllowClientReady(id) => enc_u32(7) + seq![id],
    }
}

/// Every text and list of `m` has a length that the format can write.
pub open spec fn encodable(m: CommandsView) -> bool {
    match m {
        CommandsView::RegisterPlayer { name, .. } => encode_utf8(name).len() <= u64::MAX,
        CommandsView::MovedPlayers(v) => v.len() <= u64::MAX,
        CommandsView::SendMap(bs) => bs.len() <= u64::MAX,
        CommandsView::SendPlayerInfo { players, .. } => players.len() <= u64::MAX && forall|i: int|
            0 <= i < players.len() ==> encode_utf8(#[trigger] players[i].name).len() <= u64::MAX,
        CommandsView::AddPlayer(p) => encode_utf8(p.name).len() <= u64::MAX,
        _ => true,
    }
}

// Parsers: each reads a value from the front of `s` and says how many bytes
// it took.

pub open spec fn parse_len(s: Seq<u8>) -> Option<(nat, nat)> {
    if s.len() >= 8 {
        Some((spec_u64_from_le_bytes(s.take(8)) as nat, 8))
    } else {
        None
    }
}

pub open spec fn parse_str(s: Seq<u8>) -> Option<(Seq<char>, nat)> {
    if s.len() >= 8 {
        let n = spec_u64_from_le_bytes(s.take(8)) as int;
        if s.len() >= 8 + n && valid_utf8(s.subrange(8, 8 + n)) {
            Some((decode_utf8(s.subrange(8, 8 + n)), (8 + n) as nat))
        } else {
            None
        }
    } else {
        None
    }
}

pub open spec fn parse_entry(s: Seq<u8>) -> Option<(PositionMap, nat)> {
    if s.len() >= 9 {
        Some((dec_entry(s.take(9)), 9))
    } else {
        None
    }
}

pub open spec fn parse_building(s: Seq<u8>) -> Option<(NetBuilding, nat)> {
    if s.len() >= 32 {
        Some((dec_building(s.take(32)), 32))
    } else {
        None
    }
}

pub open spec fn parse_player(s: Seq<u8>) -> Option<(PlayerView, nat)> {
    if s.len() >= 9 {
        match parse_str(s.skip(9)) {
            Some((name, k)) => if s.len() >= 9 + k + 16 {
                Some(
                    (
                        PlayerView {
                            position: dec_pos(s.take(8)),
                            id: s[8],
                            name,
                            colour: dec_colour(s.subrange(9 + k as int, 25 + k as int)),
                        },
                        (25 + k) as nat,
                    ),
                )
            } else {
                None
            },
            None => None,
        }
    } else {
        None
    }
}

pub open spec fn parse_items<T>(s: Seq<u8>, n: nat, f: spec_fn(Seq<u8>) -> Option<(T, nat)>) -> Option<(Seq<T>, nat)>
    decreases n,
{
    if n == 0 {
        Some((Seq::empty(), 0))
    } else {
        match parse_items(s, (n - 1) as nat, f) {
            Some((xs, k)) => match f(s.skip(k as int)) {
                Some((x, j)) => Some((xs.push(x), k + j)),
                None => None,
            },
            None => None,
        }
    }
}

pub open spec fn parse_list<T>(s: Seq<u8>, f: spec_fn(Seq<u8>) -> Option<(T, nat)>) -> Option<(Seq<T>, nat)> {
    match parse_len(s) {
        Some((n, _)) => match parse_items(s.skip(8), n, f) {
            Some((xs, k)) => Some((xs, k + 8)),
            None => None,
        },
        None => None,
    }
}

pub open spec fn parse_body(tag: u32, r: Seq<u8>) -> Option<(CommandsView, nat)> {
    if tag == 0 {
        match parse_str(r) {
            Some((name, k)) => if r.len() >= k + 16 {
                Some((CommandsView::RegisterPlayer { name, colour: dec_colour(r.subrange(k as int, k as int + 16)) }, k + 16))
            } else {
                None
            },
            None => None,
        }
    } else if tag == 1 {
        if r.len() >= 8 {
            Some((CommandsView::Move(dec_pos(r.take(8))), 8))
        } else {
            None
        }
    } else if tag == 2 {
        match parse_list(r, |s: Seq<u8>| parse_entry(s)) {
            Some((v, k)) => Some((CommandsView::MovedPlayers(v), k)),
            None => None,
        }
    } else if tag == 3 {
        match parse_list(r, |s: Seq<u8>| parse_building(s)) {
            Some((v, k)) => Some((CommandsView::SendMap(v), k)),
            None => None,
        }
    } else if tag == 4 {
        match parse_list(r, |s: Seq<u8>| parse_player(s)) {
            Some((v, k)) => if r.len() >= k + 1 {
                Some((CommandsView::SendPlayerInfo { players: v, your_num: r[k as int] }, k + 1))
            } else {
                None
            },
            None => None,
        }
    } else if tag == 5 {
        match parse_player(r) {
            Some((p, k)) => Some((CommandsView::AddPlayer(p), k)),
            None => None,
        }
    } else if tag == 6 || tag == 7 {
        if r.len() >= 1 {
            Some((if tag == 6 { CommandsView::RemovePlayer(r[0]) } else { CommandsView::AllowClientReady(r[0]) }, 1))
        } else {
            None
        }
    } else {
        None
    }
}

/// The message that `s` holds, with nothing left over, if any.
pub open spec fn decode_spec(s: Seq<u8>) -> Option<CommandsView> {
    if s.len() >= 4 {
        match parse_body(spec_u32_from_le_bytes(s.take(4)), s.skip(4)) {
            Some((m, k)) => if k + 4 == s.len() {
                Some(m)
            } else {
                None
            },
            None => None,
        }
    } else {
        None
    }
}

proof fn lemma_i32_bits(x: i32, u: u32)
    ensures
        (x as u32) as i32 == x,
        (u as i32) as u32 == u,
{
    assert((x as u32) as i32 == x) by (bit_vector);
    assert((u as i32) as u32 == u) by (bit_vector);
}

proof fn lemma_pos(p: NetPosition, s: Seq<u8>)
    ensures
        enc_pos(p).len() == 8,
        dec_pos(enc_pos(p)) == p,
        s.len() == 8 ==> enc_pos(dec_pos(s)) == s,
{
    lemma_auto_spec_u32_to_from_le_bytes();
    let e = enc_pos(p);
    assert(e.subrange(0, 4) =~= enc_i32(p.x));
    assert(e.subrange(4, 8) =~= enc_i32(p.y));
    lemma_i32_bits(p.x, 0);
    lemma_i32_bits(p.y, 0);
    if s.len() == 8 {
        let a = s.subrange(0, 4);
        let b = s.subrange(4, 8);
        lemma_i32_bits(0, spec_u32_from_le_bytes(a));
        lemma_i32_bits(0, spec_u32_from_le_bytes(b));
        assert(enc_pos(dec_pos(s)) =~= a + b);
        assert(s =~= a + b);
    }
}

proof fn lemma_colour(c: NetColour, s: Seq<u8>)
    ensures
        enc_colour(c).len() == 16,
        dec_colour(enc_colour(c)) == c,
        s.len() == 16 ==> enc_colour(dec_colour(s)) == s,
{
    lemma_auto_spec_u32_to_from_le_bytes();
    let e = enc_colour(c);
    assert(e.subrange(0, 4) =~= enc_u32(c.r));
    assert(e.subrange(4, 8) =~= enc_u32(c.g));
    assert(e.subrange(8, 12) =~= enc_u32(c.b));
    assert(e.subrange(12, 16) =~= enc_u32(c.a));
    if s.len() == 16 {
        assert(s =~= s.subrange(0, 4) + s.subrange(4, 8) + s.subrange(8, 12) + s.subrange(12, 16));
    }
}

proof fn lemma_building(b: NetBuilding, s: Seq<u8>)
    ensures
        enc_building(b).len() == 32,
        dec_building(enc_building(b)) == b,
        s.len() == 32 ==> enc_building(dec_building(s)) == s,
{
    lemma_auto_spec_u32_to_from_le_bytes();
    lemma_pos(b.position, s.subrange(0, 8));
    lemma_colour(b.colour, s.subrange(16, 32));
    let e = enc_building(b);
    assert(e.subrange(0, 8) =~= enc_pos(b.position));
    assert(e.subrange(8, 12) =~= enc_u32(b.width));
    assert(e.subrange(12, 16) =~= enc_u32(b.height));
    assert(e.subrange(16, 32) =~= enc_colour(b.colour));
    if s.len() == 32 {
        assert(s =~= s.subrange(0, 8) + s.subrange(8, 12) + s.subrange(12, 16) + s.subrange(16, 32));
    }
}

proof fn lemma_entry(x: PositionMap, s: Seq<u8>)
    ensures
        enc_entry(x).len() == 9,
        dec_entry(enc_entry(x)) == x,
        s.len() == 9 ==> enc_entry(dec_entry(s)) == s,
{
    lemma_pos(x.pos, s.subrange(1, 9));
    let e = enc_entry(x);
    assert(e.subrange(1, 9) =~= enc_pos(x.pos));
    if s.len() == 9 {
        assert(s =~= seq![s[0]] + s.subrange(1, 9));
    }
}

proof fn lemma_str(c: Seq<char>, rest: Seq<u8>, s: Seq<u8>)
    ensures
        enc_str(c).len() == 8 + encode_utf8(c).len(),
        encode_utf8(c).len() <= u64::MAX ==> parse_str(enc_str(c) + rest) == Some((c, enc_str(c).len())),
        parse_str(s) is Some ==> {
            let (d, n) = parse_str(s)->Some_0;
            n <= s.len() && s.take(n as int) == enc_str(d)
        },
{
    lemma_auto_spec_u64_to_from_le_bytes();
    let b = encode_utf8(c);
    if b.len() <= u64::MAX {
        let t = enc_str(c) + rest;
        assert(t.take(8) =~= enc_len(b.len()));
        assert(t.subrange(8, 8 + b.len() as int) =~= b);
        encode_utf8_valid_utf8(c);
        encode_utf8_decode_utf8(c);
    }
    if parse_str(s) is Some {
        let n = spec_u64_from_le_bytes(s.take(8)) as int;
        let v = s.subrange(8, 8 + n);
        decode_utf8_encode_utf8(v);
        assert(s.take(8 + n) =~= s.take(8) + v);
    }
}

proof fn lemma_player(p: PlayerView, rest: Seq<u8>, s: Seq<u8>)
    ensures
        enc_player(p).len() == 33 + encode_utf8(p.name).len(),
        encode_utf8(p.name).len() <= u64::MAX ==> parse_player(enc_player(p) + rest) == Some((p, enc_player(p).len())),
        parse_player(s) is Some ==> {
            let (d, n) = parse_player(s)->Some_0;
            n <= s.len() && s.take(n as int) == enc_player(d)
        },
{
    lemma_pos(p.position, s.take(8));
    lemma_colour(p.colour, Seq::empty());
    let ns = enc_str(p.name);
    let t = enc_player(p) + rest;
    lemma_str(p.name, enc_colour(p.colour) + rest, s.skip(9));
    if encode_utf8(p.name).len() <= u64::MAX {
        assert(t.take(8) =~= enc_pos(p.position));
        assert(t[8] == p.id);
        assert(t.skip(9) =~= ns + (enc_colour(p.colour) + rest));
        let k = ns.len();
        assert(t.subrange(9 + k as int, 25 + k as int) =~= enc_colour(p.colour));
    }
    if parse_player(s) is Some {
        let (name, k) = parse_str(s.skip(9))->Some_0;
        lemma_colour(p.colour, s.subrange(9 + k as int, 25 + k as int));
        let d = parse_player(s)->Some_0.0;
        assert(s.skip(9).take(k as int) =~= s.subrange(9, 9 + k as int));
        assert(s.take(25 + k as int) =~= s.take(8) + seq![s[8]] + s.subrange(9, 9 + k as int) + s.subrange(
            9 + k as int,
            25 + k as int,
        ));
    }
}

proof fn lemma_items_round_trip<T>(
    xs: Seq<T>,
    e: spec_fn(T) -> Seq<u8>,
    f: spec_fn(Seq<u8>) -> Option<(T, nat)>,
    rest: Seq<u8>,
)
    requires
        forall|i: int, r: Seq<u8>| 0 <= i < xs.len() ==> #[trigger] f(e(xs[i]) + r) == Some((xs[i], e(xs[i]).len())),
    ensures
        parse_items(enc_items(xs, e) + rest, xs.len(), f) == Some((xs, enc_items(xs, e).len())),
    decreases xs.len(),
{
    if xs.len() > 0 {
        let q = xs.drop_last();
        let l = xs.last();
        assert forall|i: int, r: Seq<u8>| 0 <= i < q.len() implies #[trigger] f(e(q[i]) + r) == Some(
            (q[i], e(q[i]).len()),
        ) by {
            assert(q[i] == xs[i]);
            assert(f(e(xs[i]) + r) == Some((xs[i], e(xs[i]).len())));
        }
        lemma_items_round_trip(q, e, f, e(l) + rest);
        let s = enc_items(xs, e) + rest;
        assert(s =~= enc_items(q, e) + (e(l) + rest));
        assert(s.skip(enc_items(q, e).len() as int) =~= e(l) + rest);
        assert(f(e(xs[xs.len() - 1]) + rest) == Some((xs[xs.len() - 1], e(xs[xs.len() - 1]).len())));
        assert(xs =~= q.push(l));
    }
}

proof fn lemma_items_exact<T>(s: Seq<u8>, n: nat, e: spec_fn(T) -> Seq<u8>, f: spec_fn(Seq<u8>) -> Option<(T, nat)>)
    requires
        forall|t: Seq<u8>| #[trigger] f(t) is Some ==> f(t)->Some_0.1 <= t.len() && t.take(f(t)->Some_0.1 as int) == e(
            f(t)->Some_0.0,
        ),
    ensures
        parse_items(s, n, f) is Some ==> {
            let (xs, k) = parse_items(s, n, f)->Some_0;
            xs.len() == n && k <= s.len() && s.take(k as int) == enc_items(xs, e)
        },
    decreases n,
{
    if n > 0 && parse_items(s, n, f) is Some {
        lemma_items_exact(s, (n - 1) as nat, e, f);
        let (q, k1) = parse_items(s, (n - 1) as nat, f)->Some_0;
        let t = s.skip(k1 as int);
        assert(f(t) is Some);
        let (x, j) = f(t)->Some_0;
        let xs = q.push(x);
        assert(xs.drop_last() =~= q);
        assert(s.take((k1 + j) as int) =~= s.take(k1 as int) + t.take(j as int));
    }
}

proof fn lemma_element_laws()
    ensures
        forall|x: PositionMap, r: Seq<u8>| #[trigger] parse_entry(enc_entry(x) + r) == Some((x, enc_entry(x).len())),
        forall|t: Seq<u8>| #[trigger] parse_entry(t) is Some ==> parse_entry(t)->Some_0.1 <= t.len()
            && t.take(parse_entry(t)->Some_0.1 as int) == enc_entry(parse_entry(t)->Some_0.0),
        forall|x: NetBuilding, r: Seq<u8>| #[trigger] parse_building(enc_building(x) + r) == Some((x, enc_building(x).len())),
        forall|t: Seq<u8>| #[trigger] parse_building(t) is Some ==> parse_building(t)->Some_0.1 <= t.len()
            && t.take(parse_building(t)->Some_0.1 as int) == enc_building(parse_building(t)->Some_0.0),
        forall|t: Seq<u8>| #[trigger] parse_player(t) is Some ==> parse_player(t)->Some_0.1 <= t.len()
            && t.take(parse_player(t)->Some_0.1 as int) == enc_player(parse_player(t)->Some_0.0),
{
    assert forall|x: PositionMap, r: Seq<u8>| #[trigger] parse_entry(enc_entry(x) + r) == Some((x, enc_entry(x).len())) by {
        lemma_entry(x, Seq::empty());
        assert((enc_entry(x) + r).take(9) =~= enc_entry(x));
    }
    assert forall|t: Seq<u8>| #[trigger] parse_entry(t) is Some implies parse_entry(t)->Some_0.1 <= t.len()
        && t.take(parse_entry(t)->Some_0.1 as int) == enc_entry(parse_entry(t)->Some_0.0) by {
        lemma_entry(dec_entry(t.take(9)), t.take(9));
    }
    assert forall|x: NetBuilding, r: Seq<u8>| #[trigger] parse_building(enc_building(x) + r) == Some((x, enc_building(x).len())) by {
        lemma_building(x, Seq::empty());
        assert((enc_building(x) + r).take(32) =~= enc_building(x));
    }
    assert forall|t: Seq<u8>| #[trigger] parse_building(t) is Some implies parse_building(t)->Some_0.1 <= t.len()
        && t.take(parse_building(t)->Some_0.1 as int) == enc_building(parse_building(t)->Some_0.0) by {
        lemma_building(dec_building(t.take(32)), t.take(32));
    }
    assert forall|t: Seq<u8>| #[trigger] parse_player(t) is Some implies parse_player(t)->Some_0.1 <= t.len()
        && t.take(parse_player(t)->Some_0.1 as int) == enc_player(parse_player(t)->Some_0.0) by {
        let p = PlayerView { position: NetPosition { x: 0, y: 0 }, id: 0, name: Seq::empty(), colour: NetColour { r: 0, g: 0, b: 0, a: 0 } };
        lemma_player(p, Seq::empty(), t);
    }
}

/// Round trip: decoding the encoding of any message whose texts and lists
/// fit the format gives the message back, equal in every field.
pub proof fn lemma_round_trip(m: CommandsView)
    requires
        encodable(m),
    ensures
        decode_spec(encode_spec(m)) == Some(m),
{
    lemma_auto_spec_u32_to_from_le_bytes();
    lemma_auto_spec_u64_to_from_le_bytes();
    lemma_element_laws();
    let s = encode_spec(m);
    let r = s.skip(4);
    let empty = Seq::<u8>::empty();
    match m {
        CommandsView::RegisterPlayer { name, colour } => {
            assert(s.take(4) =~= enc_u32(0));
            assert(r =~= enc_str(name) + enc_colour(colour));
            lemma_str(name, enc_colour(colour), empty);
            lemma_colour(colour, empty);
            let k = enc_str(name).len();
            assert(r.subrange(k as int, k as int + 16) =~= enc_colour(colour));
        },
        CommandsView::Move(p) => {
            assert(s.take(4) =~= enc_u32(1));
            lemma_pos(p, empty);
            assert(r.take(8) =~= enc_pos(p));
        },
        CommandsView::MovedPlayers(v) => {
            let e = |x: PositionMap| enc_entry(x);
            let f = |t: Seq<u8>| parse_entry(t);
            assert(s.take(4) =~= enc_u32(2));
            assert(r =~= enc_list(v, e));
            assert(r.take(8) =~= enc_len(v.len()));
            assert(r.skip(8) =~= enc_items(v, e) + empty);
            lemma_items_round_trip(v, e, f, empty);
        },
        CommandsView::SendMap(v) => {
            let e = |x: NetBuilding| enc_building(x);
            let f = |t: Seq<u8>| parse_building(t);
            assert(s.take(4) =~= enc_u32(3));
            assert(r =~= enc_list(v, e));
            assert(r.take(8) =~= enc_len(v.len()));
            assert(r.skip(8) =~= enc_items(v, e) + empty);
            lemma_items_round_trip(v, e, f, empty);
        },
        CommandsView::SendPlayerInfo { players, your_num } => {
            let e = |x: PlayerView| enc_player(x);
            let f = |t: Seq<u8>| parse_player(t);
            assert(s.take(4) =~= enc_u32(4));
            assert(r =~= enc_list(players, e) + seq![your_num]);
            assert(r.take(8) =~= enc_len(players.len()));
            assert(r.skip(8) =~= enc_items(players, e) + seq![your_num]);
            assert forall|i: int, q: Seq<u8>| 0 <= i < players.len() implies #[trigger] f(e(players[i]) + q) == Some(
                (players[i], e(players[i]).len()),
            ) by {
                lemma_player(players[i], q, empty);
            }
            lemma_items_round_trip(players, e, f, seq![your_num]);
        },
        CommandsView::AddPlayer(p) => {
            assert(s.take(4) =~= enc_u32(5));
            assert(r =~= enc_player(p) + empty);
            lemma_player(p, empty, empty);
        },
        CommandsView::RemovePlayer(id) => {
            assert(s.take(4) =~= enc_u32(6));
            assert(r =~= seq![id]);
        },
        CommandsView::AllowClientReady(id) => {
            assert(s.take(4) =~= enc_u32(7));
            assert(r =~= seq![id]);
        },
    }
}

proof fn lemma_list_exact<T>(r: Seq<u8>, e: spec_fn(T) -> Seq<u8>, f: spec_fn(Seq<u8>) -> Option<(T, nat)>)
    requires
        forall|t: Seq<u8>| #[trigger] f(t) is Some ==> f(t)->Some_0.1 <= t.len() && t.take(f(t)->Some_0.1 as int) == e(
            f(t)->Some_0.0,
        ),
    ensures
        parse_list(r, f) is Some ==> {
            let (xs, k) = parse_list(r, f)->Some_0;
            k <= r.len() && r.take(k as int) == enc_list(xs, e)
        },
{
    if parse_list(r, f) is Some {
        lemma_auto_spec_u64_to_from_le_bytes();
        let n = parse_len(r)->Some_0.0;
        lemma_items_exact(r.skip(8), n, e, f);
        let k = parse_items(r.skip(8), n, f)->Some_0.1;
        assert(r.take(k as int + 8) =~= r.take(8) + r.skip(8).take(k as int));
    }
}

proof fn lemma_body_exact(tag: u32, r: Seq<u8>)
    ensures
        parse_body(tag, r) is Some ==> {
            let (m, k) = parse_body(tag, r)->Some_0;
            k <= r.len() && enc_u32(tag) + r.take(k as int) == encode_spec(m)
        },
{
    if parse_body(tag, r) is Some {
        let empty = Seq::<u8>::empty();
        let k = parse_body(tag, r)->Some_0.1;
        if tag == 0 {
            let k1 = parse_str(r)->Some_0.1;
            lemma_str(Seq::empty(), empty, r);
            lemma_colour(NetColour { r: 0, g: 0, b: 0, a: 0 }, r.subrange(k1 as int, k1 as int + 16));
            assert(r.take(k as int) =~= r.take(k1 as int) + r.subrange(k1 as int, k1 as int + 16));
        } else if tag == 1 {
            lemma_pos(NetPosition { x: 0, y: 0 }, r.take(8));
        } else if tag == 2 {
            lemma_element_laws();
            lemma_list_exact(r, |x: PositionMap| enc_entry(x), |t: Seq<u8>| parse_entry(t));
        } else if tag == 3 {
            lemma_element_laws();
            lemma_list_exact(r, |x: NetBuilding| enc_building(x), |t: Seq<u8>| parse_building(t));
        } else if tag == 4 {
            lemma_element_laws();
            let f = |t: Seq<u8>| parse_player(t);
            lemma_list_exact(r, |x: PlayerView| enc_player(x), f);
            let k1 = parse_list(r, f)->Some_0.1;
            assert(r.take(k as int) =~= r.take(k1 as int) + seq![r[k1 as int]]);
        } else if tag == 5 {
            lemma_player(PlayerView { position: NetPosition { x: 0, y: 0 }, id: 0, name: Seq::empty(), colour: NetColour { r: 0, g: 0, b: 0, a: 0 } }, empty, r);
        } else {
            assert(r.take(1) =~= seq![r[0]]);
        }
    }
}

/// Decoding is exact: whatever message a byte string decodes to encodes back
/// to that very byte string.
pub proof fn lemma_decode_exact(s: Seq<u8>)
    ensures
        decode_spec(s) is Some ==> encode_spec(decode_spec(s)->Some_0) == s,
{
    if decode_spec(s) is Some {
        lemma_auto_spec_u32_to_from_le_bytes();
        let tag = spec_u32_from_le_bytes(s.take(4));
        let r = s.skip(4);
        lemma_body_exact(tag, r);
        assert(r.take(r.len() as int) =~= r);
        assert(s =~= s.take(4) + r);
    }
}

/// Relies on `String::from_utf8`: it accepts exactly the well-formed UTF-8
/// byte strings, and the string it returns holds the characters they encode.
#[verifier::external_body]
fn string_from_utf8(bytes: Vec<u8>) -> (r: Option<String>)
    ensures
        r is Some <==> valid_utf8(bytes@),
        r matches Some(s) ==> s@ == decode_utf8(bytes@),
{
    String::from_utf8(bytes).ok()
}

fn put_u32(out: &mut Vec<u8>, x: u32)
    ensures
        final(out)@ == old(out)@ + enc_u32(x),
{
    let mut b = u32_to_le_bytes(x);
    out.append(&mut b);
}

fn put_i32(out: &mut Vec<u8>, x: i32)
    ensures
        final(out)@ == old(out)@ + enc_i32(x),
{
    put_u32(out, #[verifier::truncate] (x as u32));
}

fn put_len(out: &mut Vec<u8>, n: usize)
    ensures
        final(out)@ == old(out)@ + enc_len(n as nat),
{
    let mut b = u64_to_le_bytes(n as u64);
    out.append(&mut b);
}

fn put_str(out: &mut Vec<u8>, s: &String)
    ensures
        final(out)@ == old(out)@ + enc_str(s@),
{
    let bytes = s.as_str().as_bytes();
    put_len(out, bytes.len());
    let mut v = slice_to_vec(bytes);
    out.append(&mut v);
    assert(final(out)@ =~= old(out)@ + enc_str(s@));
}

fn put_pos(out: &mut Vec<u8>, p: NetPosition)
    ensures
        final(out)@ == old(out)@ + enc_pos(p),
{
    put_i32(out, p.x);
    put_i32(out, p.y);
    assert(final(out)@ =~= old(out)@ + enc_pos(p));
}

fn put_colour(out: &mut Vec<u8>, c: NetColour)
    ensures
        final(out)@ == old(out)@ + enc_colour(c),
{
    put_u32(out, c.r);
    put_u32(out, c.g);
    put_u32(out, c.b);
    put_u32(out, c.a);
    assert(final(out)@ =~= old(out)@ + enc_colour(c));
}

fn put_building(out: &mut Vec<u8>, b: NetBuilding)
    ensures
        final(out)@ == old(out)@ + enc_building(b),
{
    put_pos(out, b.position);
    put_u32(out, b.width);
    put_u32(out, b.height);
    put_colour(out, b.colour);
    assert(final(out)@ =~= old(out)@ + enc_building(b));
}

fn put_entry(out: &mut Vec<u8>, e: PositionMap)
    ensures
        final(out)@ == old(out)@ + enc_entry(e),
{
    out.push(e.id);
    put_pos(out, e.pos);
    assert(final(out)@ =~= old(out)@ + enc_entry(e));
}

fn put_player(out: &mut Vec<u8>, p: &NetPlayer)
    ensures
        final(out)@ == old(out)@ + enc_player(p@),
{
    put_pos(out, p.position);
    out.push(p.id);
    put_str(out, &p.name);
    put_colour(out, p.colour);
    assert(final(out)@ =~= old(out)@ + enc_player(p@));
}

fn put_entries(out: &mut Vec<u8>, v: &Vec<PositionMap>)
    ensures
        final(out)@ == old(out)@ + enc_list(v@, |x: PositionMap| enc_entry(x)),
{
    let ghost e = |x: PositionMap| enc_entry(x);
    put_len(out, v.len());
    let ghost start = out@;
    let mut i: usize = 0;
    while i < v.len()
        invariant
            i <= v@.len(),
            e == (|x: PositionMap| enc_entry(x)),
            out@ == start + enc_items(v@.take(i as int), e),
        decreases v@.len() - i,
    {
        put_entry(out, v[i]);
        assert(v@.take(i + 1).drop_last() =~= v@.take(i as int));
        assert(v@.take(i + 1).last() == v@[i as int]);
        assert(enc_items(v@.take(i + 1), e) == enc_items(v@.take(i as int), e) + enc_entry(v@[i as int]));
        assert(out@ =~= start + enc_items(v@.take(i + 1), e));
        i = i + 1;
    }
    assert(v@.take(v@.len() as int) =~= v@);
    assert(final(out)@ =~= old(out)@ + enc_list(v@, e));
}

fn put_buildings(out: &mut Vec<u8>, v: &Vec<NetBuilding>)
    ensures
        final(out)@ == old(out)@ + enc_list(v@, |x: NetBuilding| enc_building(x)),
{
    let ghost e = |x: NetBuilding| enc_building(x);
    put_len(out, v.len());
    let ghost start = out@;
    let mut i: usize = 0;
    while i < v.len()
        invariant
            i <= v@.len(),
            e == (|x: NetBuilding| enc_building(x)),
            out@ == start + enc_items(v@.take(i as int), e),
        decreases v@.len() - i,
    {
        put_building(out, v[i]);
        assert(v@.take(i + 1).drop_last() =~= v@.take(i as int));
        assert(v@.take(i + 1).last() == v@[i as int]);
        assert(enc_items(v@.take(i + 1), e) == enc_items(v@.take(i as int), e) + enc_building(v@[i as int]));
        assert(out@ =~= start + enc_items(v@.take(i + 1), e));
        i = i + 1;
    }
    assert(v@.take(v@.len() as int) =~= v@);
    assert(final(out)@ =~= old(out)@ + enc_list(v@, e));
}

fn put_players(out: &mut Vec<u8>, v: &Vec<NetPlayer>)
    ensures
        final(out)@ == old(out)@ + enc_list(players_view(v@), |x: PlayerView| enc_player(x)),
{
    let ghost e = |x: PlayerView| enc_player(x);
    let ghost pv = players_view(v@);
    put_len(out, v.len());
    let ghost start = out@;
    let mut i: usize = 0;
    while i < v.len()
        invariant
            i <= v@.len(),
            pv == players_view(v@),
            e == (|x: PlayerView| enc_player(x)),
            out@ == start + enc_items(pv.take(i as int), e),
        decreases v@.len() - i,
    {
        put_player(out, &v[i]);
        assert(pv.take(i + 1).drop_last() =~= pv.take(i as int));
        assert(pv.take(i + 1).last() == pv[i as int]);
        assert(enc_items(pv.take(i + 1), e) == enc_items(pv.take(i as int), e) + enc_player(pv[i as int]));
        assert(out@ =~= start + enc_items(pv.take(i + 1), e));
        i = i + 1;
    }
    assert(pv.take(pv.len() as int) =~= pv);
    assert(final(out)@ =~= old(out)@ + enc_list(pv, e));
}

/// The bytes of `c`.
pub fn encode(c: &Commands) -> (r: Vec<u8>)
    ensures
        r@ == encode_spec(c@),
{
    let mut out: Vec<u8> = Vec::new();
    match c {
        Commands::RegisterPlayer(info) => {
            put_u32(&mut out, 0);
            put_str(&mut out, &info.name);
            put_colour(&mut out, info.colour);
        },
        Commands::Move(p) => {
            put_u32(&mut out, 1);
            put_pos(&mut out, *p);
        },
        Commands::MovedPlayers(v) => {
            put_u32(&mut out, 2);
            put_entries(&mut out, v);
        },
        Commands::SendMap(m) => {
            put_u32(&mut out, 3);
            put_buildings(&mut out, &m.buildings);
        },
        Commands::SendPlayerInfo(info) => {
            put_u32(&mut out, 4);
            put_players(&mut out, &info.players);
            out.push(info.your_num);
        },
        Commands::AddPlayer(p) => {
            put_u32(&mut out, 5);
            put_player(&mut out, p);
        },
        Commands::RemovePlayer(id) => {
            put_u32(&mut out, 6);
            out.push(*id);
        },
        Commands::AllowClientReady(id) => {
            put_u32(&mut out, 7);
            out.push(*id);
        },
    }
    assert(out@ =~= encode_spec(c@));
    out
}

fn get_u32(b: &[u8], at: usize) -> (r: u32)
    requires
        at + 4 <= b@.len(),
    ensures
        r == spec_u32_from_le_bytes(b@.subrange(at as int, at + 4)),
{
    let _ = b.len();
    u32_from_le_bytes(slice_subrange(b, at, at + 4))
}

fn get_pos(b: &[u8], at: usize) -> (r: NetPosition)
    requires
        at + 8 <= b@.len(),
    ensures
        r == dec_pos(b@.subrange(at as int, at + 8)),
{
    let _ = b.len();
    let x = #[verifier::truncate] (get_u32(b, at) as i32);
    let y = #[verifier::truncate] (get_u32(b, at + 4) as i32);
    let ghost w = b@.subrange(at as int, at + 8);
    assert(w.subrange(0, 4) =~= b@.subrange(at as int, at + 4));
    assert(w.subrange(4, 8) =~= b@.subrange(at + 4, at + 8));
    NetPosition { x, y }
}

fn get_colour(b: &[u8], at: usize) -> (r: NetColour)
    requires
        at + 16 <= b@.len(),
    ensures
        r == dec_colour(b@.subrange(at as int, at + 16)),
{
    let _ = b.len();
    let ghost w = b@.subrange(at as int, at + 16);
    assert(w.subrange(0, 4) =~= b@.subrange(at as int, at + 4));
    assert(w.subrange(4, 8) =~= b@.subrange(at + 4, at + 8));
    assert(w.subrange(8, 12) =~= b@.subrange(at + 8, at + 12));
    assert(w.subrange(12, 16) =~= b@.subrange(at + 12, at + 16));
    NetColour {
        r: get_u32(b, at),
        g: get_u32(b, at + 4),
        b: get_u32(b, at + 8),
        a: get_u32(b, at + 12),
    }
}

fn get_building(b: &[u8], at: usize) -> (r: NetBuilding)
    requires
        at + 32 <= b@.len(),
    ensures
        r == dec_building(b@.subrange(at as int, at + 32)),
{
    let _ = b.len();
    let ghost w = b@.subrange(at as int, at + 32);
    assert(w.subrange(0, 8) =~= b@.subrange(at as int, at + 8));
    assert(w.subrange(8, 12) =~= b@.subrange(at + 8, at + 12));
    assert(w.subrange(12, 16) =~= b@.subrange(at + 12, at + 16));
    assert(w.subrange(16, 32) =~= b@.subrange(at + 16, at + 32));
    NetBuilding {
        position: get_pos(b, at),
        width: get_u32(b, at + 8),
        height: get_u32(b, at + 12),
        colour: get_colour(b, at + 16),
    }
}

fn get_entry(b: &[u8], at: usize) -> (r: PositionMap)
    requires
        at + 9 <= b@.len(),
    ensures
        r == dec_entry(b@.subrange(at as int, at + 9)),
{
    let _ = b.len();
    let ghost w = b@.subrange(at as int, at + 9);
    assert(w.subrange(1, 9) =~= b@.subrange(at + 1, at + 9));
    PositionMap { id: b[at], pos: get_pos(b, at + 1) }
}

fn read_str(b: &[u8], at: usize) -> (r: Option<(String, usize)>)
    requires
        at <= b@.len(),
    ensures
        r is Some <==> parse_str(b@.skip(at as int)) is Some,
        r matches Some((x, e)) ==> parse_str(b@.skip(at as int)) == Some((x@, (e - at) as nat)) && at <= e <= b@.len(),
{
    let ghost t = b@.skip(at as int);
    if b.len() - at < 8 {
        return None;
    }
    assert(t.take(8) =~= b@.subrange(at as int, at + 8));
    let n = u64_from_le_bytes(slice_subrange(b, at, at + 8));
    if n > (b.len() - at - 8) as u64 {
        return None;
    }
    let n = n as usize;
    let bytes = slice_to_vec(slice_subrange(b, at + 8, at + 8 + n));
    assert(t.subrange(8, 8 + n as int) =~= bytes@);
    match string_from_utf8(bytes) {
        Some(s) => Some((s, at + 8 + n)),
        None => None,
    }
}

fn read_player(b: &[u8], at: usize) -> (r: Option<(NetPlayer, usize)>)
    requires
        at <= b@.len(),
    ensures
        r is Some <==> parse_player(b@.skip(at as int)) is Some,
        r matches Some((x, e)) ==> parse_player(b@.skip(at as int)) == Some((x@, (e - at) as nat)) && at <= e <= b@.len(),
{
    let ghost t = b@.skip(at as int);
    if b.len() - at < 9 {
        return None;
    }
    assert(t.skip(9) =~= b@.skip(at + 9));
    assert(t.take(8) =~= b@.subrange(at as int, at + 8));
    let (name, e) = match read_str(b, at + 9) {
        Some(x) => x,
        None => {
            return None;
        },
    };
    if b.len() - e < 16 {
        return None;
    }
    let ghost k = e - at - 9;
    assert(t.subrange(9 + k, 25 + k) =~= b@.subrange(e as int, e + 16));
    let p = NetPlayer { position: get_pos(b, at), id: b[at + 8], name, colour: get_colour(b, e) };
    Some((p, e + 16))
}

proof fn lemma_items_stop<T>(s: Seq<u8>, m: nat, n: nat, f: spec_fn(Seq<u8>) -> Option<(T, nat)>)
    requires
        m <= n,
        parse_items(s, m, f) is None,
    ensures
        parse_items(s, n, f) is None,
    decreases n - m,
{
    if m < n {
        lemma_items_stop(s, m, (n - 1) as nat, f);
    }
}

fn read_entries(b: &[u8], at: usize) -> (r: Option<(Vec<PositionMap>, usize)>)
    requires
        at <= b@.len(),
    ensures
        r is Some <==> parse_list(b@.skip(at as int), |t: Seq<u8>| parse_entry(t)) is Some,
        r matches Some((v, e)) ==> parse_list(b@.skip(at as int), |t: Seq<u8>| parse_entry(t)) == Some((v@, (e - at) as nat))
            && at <= e <= b@.len(),
{
    let ghost f = |t: Seq<u8>| parse_entry(t);
    let ghost t = b@.skip(at as int);
    if b.len() - at < 8 {
        return None;
    }
    assert(t.take(8) =~= b@.subrange(at as int, at + 8));
    let n = u64_from_le_bytes(slice_subrange(b, at, at + 8));
    let ghost s = t.skip(8);
    let mut v: Vec<PositionMap> = Vec::new();
    let mut pos: usize = at + 8;
    let mut i: u64 = 0;
    while i < n
        invariant
            f == (|t: Seq<u8>| parse_entry(t)),
            s == b@.skip(at + 8),
            t == b@.skip(at as int),
            s == t.skip(8),
            n == spec_u64_from_le_bytes(t.take(8)),
            at + 8 <= pos <= b@.len(),
            i <= n,
            parse_items(s, i as nat, f) == Some((v@, (pos - at - 8) as nat)),
        decreases n - i,
    {
        assert(s.skip(pos - at - 8) =~= b@.skip(pos as int));
        if b.len() - pos < 9 {
            proof {
                assert(f(s.skip(pos - at - 8)) is None);
                assert(parse_items(s, (i + 1) as nat, f) is None);
                lemma_items_stop(s, (i + 1) as nat, n as nat, f);
            }
            return None;
        }
        assert(b@.skip(pos as int).take(9) =~= b@.subrange(pos as int, pos + 9));
        let x = get_entry(b, pos);
        v.push(x);
        pos = pos + 9;
        i = i + 1;
    }
    Some((v, pos))
}

fn read_buildings(b: &[u8], at: usize) -> (r: Option<(Vec<NetBuilding>, usize)>)
    requires
        at <= b@.len(),
    ensures
        r is Some <==> parse_list(b@.skip(at as int), |t: Seq<u8>| parse_building(t)) is Some,
        r matches Some((v, e)) ==> parse_list(b@.skip(at as int), |t: Seq<u8>| parse_building(t)) == Some((v@, (e - at) as nat))
            && at <= e <= b@.len(),
{
    let ghost f = |t: Seq<u8>| parse_building(t);
    let ghost t = b@.skip(at as int);
    if b.len() - at < 8 {
        return None;
    }
    assert(t.take(8) =~= b@.subrange(at as int, at + 8));
    let n = u64_from_le_bytes(slice_subrange(b, at, at + 8));
    let ghost s = t.skip(8);
    let mut v: Vec<NetBuilding> = Vec::new();
    let mut pos: usize = at + 8;
    let mut i: u64 = 0;
    while i < n
        invariant
            f == (|t: Seq<u8>| parse_building(t)),
            s == b@.skip(at + 8),
            t == b@.skip(at as int),
            s == t.skip(8),
            n == spec_u64_from_le_bytes(t.take(8)),
            at + 8 <= pos <= b@.len(),
            i <= n,
            parse_items(s, i as nat, f) == Some((v@, (pos - at - 8) as nat)),
        decreases n - i,
    {
        assert(s.skip(pos - at - 8) =~= b@.skip(pos as int));
        if b.len() - pos < 32 {
            proof {
                assert(f(s.skip(pos - at - 8)) is None);
                assert(parse_items(s, (i + 1) as nat, f) is None);
                lemma_items_stop(s, (i + 1) as nat, n as nat, f);
            }
            return None;
        }
        assert(b@.skip(pos as int).take(32) =~= b@.subrange(pos as int, pos + 32));
        let x = get_building(b, pos);
        v.push(x);
        pos = pos + 32;
        i = i + 1;
    }
    Some((v, pos))
}

fn read_players(b: &[u8], at: usize) -> (r: Option<(Vec<NetPlayer>, usize)>)
    requires
        at <= b@.len(),
    ensures
        r is Some <==> parse_list(b@.skip(at as int), |t: Seq<u8>| parse_player(t)) is Some,
        r matches Some((v, e)) ==> parse_list(b@.skip(at as int), |t: Seq<u8>| parse_player(t)) == Some(
            (players_view(v@), (e - at) as nat),
        ) && at <= e <= b@.len(),
{
    let ghost f = |t: Seq<u8>| parse_player(t);
    let ghost t = b@.skip(at as int);
    if b.len() - at < 8 {
        return None;
    }
    assert(t.take(8) =~= b@.subrange(at as int, at + 8));
    let n = u64_from_le_bytes(slice_subrange(b, at, at + 8));
    let ghost s = t.skip(8);
    let mut v: Vec<NetPlayer> = Vec::new();
    let mut pos: usize = at + 8;
    let mut i: u64 = 0;
    while i < n
        invariant
            f == (|t: Seq<u8>| parse_player(t)),
            s == b@.skip(at + 8),
            t == b@.skip(at as int),
            s == t.skip(8),
            n == spec_u64_from_le_bytes(t.take(8)),
            at + 8 <= pos <= b@.len(),
            i <= n,
            parse_items(s, i as nat, f) == Some((players_view(v@), (pos - at - 8) as nat)),
        decreases n - i,
    {
        assert(s.skip(pos - at - 8) =~= b@.skip(pos as int));
        match read_player(b, pos) {
            Some((x, e)) => {
                let ghost before = players_view(v@);
                v.push(x);
                assert(players_view(v@) =~= before.push(x@));
                pos = e;
            },
            None => {
                proof {
                    assert(f(s.skip(pos - at - 8)) is None);
                    assert(parse_items(s, (i + 1) as nat, f) is None);
                    lemma_items_stop(s, (i + 1) as nat, n as nat, f);
                }
                return None;
            },
        }
        i = i + 1;
    }
    Some((v, pos))
}

/// The message that `b` holds, if it holds exactly one well-formed message.
pub fn decode(b: &[u8]) -> (r: Option<Commands>)
    ensures
        r is Some <==> decode_spec(b@) is Some,
        r matches Some(c) ==> decode_spec(b@) == Some(c@),
        r matches Some(c) ==> encode_spec(c@) == b@,
{
    proof {
        lemma_decode_exact(b@);
    }
    if b.len() < 4 {
        return None;
    }
    let tag = get_u32(b, 0);
    assert(b@.take(4) =~= b@.subrange(0, 4));
    let ghost r = b@.skip(4);
    let len = b.len();
    let (c, e): (Commands, usize) = if tag == 0 {
        match read_str(b, 4) {
            Some((name, e)) => {
                if len - e < 16 {
                    return None;
                }
                assert(r.subrange(e - 4, e - 4 + 16) =~= b@.subrange(e as int, e + 16));
                let colour = get_colour(b, e);
                (Commands::RegisterPlayer(RegistrationInfo { name, colour }), e + 16)
            },
            None => {
                return None;
            },
        }
    } else if tag == 1 {
        if len < 12 {
            return None;
        }
        assert(r.take(8) =~= b@.subrange(4, 12));
        (Commands::Move(get_pos(b, 4)), 12)
    } else if tag == 2 {
        match read_entries(b, 4) {
            Some((v, e)) => (Commands::MovedPlayers(v), e),
            None => {
                return None;
            },
        }
    } else if tag == 3 {
        match read_buildings(b, 4) {
            Some((v, e)) => (Commands::SendMap(WorldMap { buildings: v }), e),
            None => {
                return None;
            },
        }
    } else if tag == 4 {
        match read_players(b, 4) {
            Some((v, e)) => {
                if e >= len {
                    return None;
                }
                let your_num = b[e];
                (Commands::SendPlayerInfo(NetPlayerInfo { players: v, your_num }), e + 1)
            },
            None => {
                return None;
            },
        }
    } else if tag == 5 {
        match read_player(b, 4) {
            Some((p, e)) => (Commands::AddPlayer(p), e),
            None => {
                return None;
            },
        }
    } else if tag == 6 || tag == 7 {
        if len < 5 {
            return None;
        }
        let id = b[4];
        (if tag == 6 { Commands::RemovePlayer(id) } else { Commands::AllowClientReady(id) }, 5)
    } else {
        return None;
    };
    if e != len {
        return None;
    }
    Some(c)
}

} // verus!
