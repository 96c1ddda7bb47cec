//! The servers of a cluster, and the file that lists them: a line `peer.<id>.addr = <ip>:<port>`
//! for each.
use vstd::prelude::*;

use crate::decimal::{
    decimal, law_decimal_read_back, law_digits_are_a_number, number_of, number_value, parse_number,
    to_decimal,
};
use crate::text::{
    find_char, is_white_space, law_position_of, law_trim_keeps_the_core, lemma_position_of,
    position_of, starts_with, trim, trim_of,
};

verus! {

/// A server of the cluster and where it listens.
pub struct Peer {
    pub id: usize,
    pub ip: String,
    pub tcpport: usize,
}

/// The content of a `Peer`.
pub struct PeerView {
    pub id: nat,
    pub ip: Seq<char>,
    pub tcpport: nat,
}

impl View for Peer {
    type V = PeerView;

    open spec fn view(&self) -> PeerView {
        PeerView { id: self.id as nat, ip: self.ip@, tcpport: self.tcpport as nat }
    }
}

impl Clone for Peer {
    fn clone(&self) -> (r: Self)
        ensures
            r == *self,
    {
        Peer { id: self.id, ip: self.ip.clone(), tcpport: self.tcpport }
    }
}

impl PeerView {
    /// The address of the peer, as in `127.0.0.1:23158`.
    pub open spec fn addr(self) -> Seq<char> {
        self.ip + ":"@ + decimal(self.tcpport)
    }

    /// The line of the configuration file that lists the peer.
    pub open spec fn config_line(self) -> Seq<char> {
        "peer."@ + decimal(self.id) + ".addr = "@ + self.addr()
    }
}

impl Peer {
    /// The address of the peer, as in `127.0.0.1:23158`.
    pub fn addr(&self) -> (r: String)
        ensures
            r@ == self@.addr(),
    {
        self.ip.clone().concat(":").concat(to_decimal(self.tcpport).as_str())
    }
}

/// The index of the first peer with the id `id`, or -1.
pub open spec fn peer_index(peers: Seq<Peer>, id: usize) -> int
    decreases peers.len(),
{
    if peers.len() == 0 {
        -1
    } else if peer_index(peers.drop_last(), id) >= 0 {
        peer_index(peers.drop_last(), id)
    } else if peers.last().id == id {
        peers.len() - 1
    } else {
        -1
    }
}

/// The peers whose id is not `id`, in their order.
pub open spec fn peers_but(peers: Seq<Peer>, id: usize) -> Seq<Peer> {
    peers.filter(|p: Peer| p.id != id)
}

/// `peer_index` is the index of a peer with that id, none before it has that id, and where it is
/// -1 no peer has.
pub proof fn law_peer_index(peers: Seq<Peer>, id: usize)
    ensures
        ({
            let r = peer_index(peers, id);
            &&& -1 <= r < peers.len()
            &&& r >= 0 ==> peers[r].id == id
            &&& r >= 0 ==> forall|i: int| 0 <= i < r ==> (#[trigger] peers[i]).id != id
            &&& r < 0 ==> forall|i: int| 0 <= i < peers.len() ==> (#[trigger] peers[i]).id != id
        }),
    decreases peers.len(),
{
    if peers.len() > 0 {
        let front = peers.drop_last();
        law_peer_index(front, id);
        assert forall|i: int| 0 <= i < front.len() implies front[i] == #[trigger] peers[i] by {}
    }
}

/// Finds the first peer with the id `id`: its index, or -1.
pub fn get_peer_idx(peers: &Vec<Peer>, id: usize) -> (r: isize)
    requires
        peers@.len() <= isize::MAX,
    ensures
        r == peer_index(peers@, id),
{
    let mut i: usize = 0;
    while i < peers.len()
        invariant
            i <= peers@.len() <= isize::MAX,
            peer_index(peers@.take(i as int), id) == -1,
        decreases peers.len() - i,
    {
        assert(peers@.take(i + 1).drop_last() =~= peers@.take(i as int));
        if peers[i].id == id {
            proof {
                lemma_peer_index_of_prefix(peers@, id, i + 1);
            }
            return i as isize;
        }
        i = i + 1;
    }
    assert(peers@.take(peers@.len() as int) =~= peers@);
    -1
}

/// A peer found among the first `k` is the one found among all.
proof fn lemma_peer_index_of_prefix(peers: Seq<Peer>, id: usize, k: int)
    requires
        0 <= k <= peers.len(),
        peer_index(peers.take(k), id) >= 0,
    ensures
        peer_index(peers, id) == peer_index(peers.take(k), id),
    decreases peers.len(),
{
    if k < peers.len() {
        assert(peers.drop_last().take(k) =~= peers.take(k));
        lemma_peer_index_of_prefix(peers.drop_last(), id, k);
    } else {
        assert(peers.take(k) =~= peers);
    }
}

/// The peers whose id is not `id`, in their order.
pub fn other_peers(peers: &Vec<Peer>, id: usize) -> (r: Vec<Peer>)
    ensures
        r@ == peers_but(peers@, id),
{
    let mut r: Vec<Peer> = Vec::new();
    let mut i: usize = 0;
    proof {
        reveal(Seq::filter);
    }
    assert(peers_but(peers@.take(0), id) =~= Seq::<Peer>::empty());
    while i < peers.len()
        invariant
            i <= peers@.len(),
            r@ == peers_but(peers@.take(i as int), id),
        decreases peers.len() - i,
    {
        proof {
            reveal(Seq::filter);
        }
        assert(peers@.take(i + 1).drop_last() =~= peers@.take(i as int));
        if peers[i].id != id {
            r.push(peers[i].clone());
        }
        assert(r@ =~= peers_but(peers@.take(i + 1), id));
        i = i + 1;
    }
    assert(peers@.take(peers@.len() as int) =~= peers@);
    r
}

/// The other peers are no more than all peers, and none of them has the id.
pub proof fn law_peers_but(peers: Seq<Peer>, id: usize)
    ensures
        peers_but(peers, id).len() <= peers.len(),
        forall|i: int|
            0 <= i < peers_but(peers, id).len() ==> (#[trigger] peers_but(peers, id)[i]).id != id,
    decreases peers.len(),
{
    reveal(Seq::filter);
    if peers.len() > 0 {
        law_peers_but(peers.drop_last(), id);
    }
}

/// Where all peers but one are others, no two have the id.
pub proof fn law_one_peer_has_id(peers: Seq<Peer>, id: usize, i: int, j: int)
    requires
        peers.len() == peers_but(peers, id).len() + 1,
        0 <= i < peers.len(),
        0 <= j < peers.len(),
        peers[i].id == id,
        peers[j].id == id,
    ensures
        i == j,
{
    lemma_left_out(peers, id, i, j);
}

/// Of two peers with the id both are left out.
proof fn lemma_left_out(peers: Seq<Peer>, id: usize, i: int, j: int)
    requires
        0 <= i < peers.len(),
        0 <= j < peers.len(),
        peers[i].id == id,
        peers[j].id == id,
    ensures
        peers_but(peers, id).len() + 1 <= peers.len(),
        i != j ==> peers_but(peers, id).len() + 2 <= peers.len(),
    decreases peers.len(),
{
    reveal(Seq::filter);
    let front = peers.drop_last();
    law_peers_but(front, id);
    if i < front.len() && j < front.len() {
        lemma_left_out(front, id, i, j);
    } else if i < front.len() {
        lemma_left_out(front, id, i, i);
    } else if j < front.len() {
        lemma_left_out(front, id, j, j);
    }
}

/// The ip and the port in the address `addr`: what stands before and behind its first colon.
pub open spec fn addr_parts_of(addr: Seq<char>) -> Option<(Seq<char>, nat)> {
    let colon = position_of(addr, ':') as int;
    if addr.contains(':') {
        match number_of(addr.skip(colon + 1)) {
            Some(tcpport) => Some((addr.take(colon), tcpport)),
            None => None,
        }
    } else {
        None
    }
}

/// The id and the address in the trimmed line `text` of the configuration file.
pub open spec fn line_parts_of(text: Seq<char>) -> Option<(nat, Seq<char>)> {
    let tail = text.skip(5);
    let dot = position_of(tail, '.') as int;
    if "peer."@.is_prefix_of(text) && ".addr = "@.is_prefix_of(tail.skip(dot)) {
        match number_of(tail.take(dot)) {
            Some(id) => Some((id, tail.skip(dot + 8))),
            None => None,
        }
    } else {
        None
    }
}

/// The peer that a line of the configuration file lists.
pub open spec fn peer_of_line(line: Seq<char>) -> Option<PeerView> {
    match line_parts_of(trim_of(line)) {
        Some((id, addr)) => match addr_parts_of(addr) {
            Some((ip, tcpport)) => Some(PeerView { id, ip, tcpport }),
            None => None,
        },
        None => None,
    }
}

/// Takes an address apart.
fn parse_addr(addr: &str) -> (r: Option<(String, usize)>)
    ensures
        match r {
            Some((ip, tcpport)) => addr_parts_of(addr@) == Some((ip@, tcpport as nat)),
            None => addr_parts_of(addr@) is None,
        },
{
    let len: usize = addr.unicode_len();
    match find_char(addr, ':') {
        None => None,
        Some(colon) => {
            assert(addr@.contains(':'));
            let ip: &str = addr.substring_char(0, colon);
            let port: &str = addr.substring_char(colon + 1, len);
            assert(ip@ =~= addr@.take(colon as int));
            assert(port@ =~= addr@.skip(colon + 1));
            match parse_number(port) {
                Some(tcpport) => Some((ip.to_owned(), tcpport)),
                None => None,
            }
        },
    }
}

/// Takes a trimmed line of the configuration file apart.
fn parse_line(text: &str) -> (r: Option<(usize, &str)>)
    ensures
        match r {
            Some((id, addr)) => line_parts_of(text@) == Some((id as nat, addr@)),
            None => line_parts_of(text@) is None,
        },
{
    proof {
        reveal_strlit("peer.");
        reveal_strlit(".addr = ");
    }
    if !starts_with(text, "peer.") {
        return None;
    }
    let text_len: usize = text.unicode_len();
    let tail: &str = text.substring_char(5, text_len);
    assert(tail@ =~= text@.skip(5));
    let tail_len: usize = tail.unicode_len();
    match find_char(tail, '.') {
        None => {
            assert(tail@.skip(tail@.len() as int).len() == 0);
            None
        },
        Some(dot) => {
            let number: &str = tail.substring_char(0, dot);
            let key: &str = tail.substring_char(dot, tail_len);
            assert(number@ =~= tail@.take(dot as int));
            assert(key@ =~= tail@.skip(dot as int));
            if !starts_with(key, ".addr = ") {
                return None;
            }
            let addr: &str = tail.substring_char(dot + 8, tail_len);
            assert(addr@ =~= tail@.skip(dot + 8));
            match parse_number(number) {
                Some(id) => Some((id, addr)),
                None => None,
            }
        },
    }
}

/// Reads the peer that a line of the configuration file lists.
pub fn parse_peer(line: &str) -> (r: Option<Peer>)
    ensures
        match r {
            Some(p) => peer_of_line(line@) == Some(p@),
            None => peer_of_line(line@) is None,
        },
{
    match parse_line(trim(line)) {
        None => None,
        Some((id, addr)) => match parse_addr(addr) {
            None => None,
            Some((ip, tcpport)) => Some(Peer { id, ip, tcpport }),
        },
    }
}

/// Whether `r` is what is read from the lines of a configuration file.
pub open spec fn is_config_of(lines: Seq<String>, r: Result<Vec<Peer>, usize>) -> bool {
    match r {
        Ok(peers) => {
            &&& peers@.len() == lines.len()
            &&& forall|i: int|
                0 <= i < lines.len() ==> peer_of_line((#[trigger] lines[i])@) == Some(peers@[i]@)
        },
        Err(k) => {
            &&& k < lines.len()
            &&& peer_of_line(lines[k as int]@) is None
            &&& forall|i: int| 0 <= i < k ==> peer_of_line((#[trigger] lines[i])@) is Some
        },
    }
}

/// Reads the lines of a configuration file: the peers that they list, or the index of the first
/// line that lists none.
pub fn parse_config(lines: &Vec<String>) -> (r: Result<Vec<Peer>, usize>)
    ensures
        is_config_of(lines@, r),
        match r {
            Ok(peers) => {
                &&& peers@.len() == lines@.len()
                &&& forall|i: int|
                    0 <= i < lines@.len() ==> peer_of_line((#[trigger] lines@[i])@) == Some(
                        peers@[i]@,
                    )
            },
            Err(k) => {
                &&& k < lines@.len()
                &&& peer_of_line(lines@[k as int]@) is None
                &&& forall|i: int| 0 <= i < k ==> peer_of_line((#[trigger] lines@[i])@) is Some
            },
        },
{
    let mut peers: Vec<Peer> = Vec::new();
    let mut i: usize = 0;
    while i < lines.len()
        invariant
            i <= lines@.len(),
            peers@.len() == i,
            forall|j: int|
                0 <= j < i ==> peer_of_line((#[trigger] lines@[j])@) == Some(peers@[j]@),
        decreases lines.len() - i,
    {
        match parse_peer(lines[i].as_str()) {
            Some(p) => peers.push(p),
            None => {
                return Err(i);
            },
        }
        i = i + 1;
    }
    Ok(peers)
}

/// The address of a peer gives its ip and its port back, unless its ip holds a colon.
pub proof fn law_addr_read_back(p: PeerView)
    requires
        p.tcpport <= usize::MAX,
        !p.ip.contains(':'),
    ensures
        addr_parts_of(p.addr()) == Some((p.ip, p.tcpport)),
{
    reveal_strlit(":");
    let addr = p.addr();
    let colon = p.ip.len() as int;
    law_decimal_read_back(p.tcpport);
    assert(addr[colon] == ':');
    assert forall|i: int| 0 <= i < colon implies addr[i] != ':' by {
        assert(addr[i] == p.ip[i]);
        assert(p.ip.contains(p.ip[i]));
    }
    lemma_position_of(addr, ':', colon);
    assert(addr.take(colon) =~= p.ip);
    assert(addr.skip(colon + 1) =~= decimal(p.tcpport));
}

/// A line gives the id and the address in it back.
proof fn lemma_line_parts(id: nat, addr: Seq<char>)
    requires
        id <= usize::MAX,
    ensures
        line_parts_of("peer."@ + decimal(id) + ".addr = "@ + addr) == Some((id, addr)),
{
    reveal_strlit("peer.");
    reveal_strlit(".addr = ");
    let text = "peer."@ + decimal(id) + ".addr = "@ + addr;
    let tail = text.skip(5);
    let dot = decimal(id).len() as int;
    law_decimal_read_back(id);
    assert("peer."@ =~= text.take(5));
    assert(tail =~= decimal(id) + ".addr = "@ + addr);
    assert forall|i: int| 0 <= i < dot implies tail[i] != '.' by {
        assert(tail[i] == decimal(id)[i]);
    }
    assert(tail[dot] == '.');
    lemma_position_of(tail, '.', dot);
    assert(tail.take(dot) =~= decimal(id));
    assert(".addr = "@ =~= tail.skip(dot).take(8));
    assert(tail.skip(dot + 8) =~= addr);
}

/// A line has no white space at its ends.
proof fn lemma_line_is_trimmed(p: PeerView)
    ensures
        trim_of(p.config_line()) == p.config_line(),
{
    reveal_strlit("peer.");
    let line = p.config_line();
    let port = decimal(p.tcpport);
    law_decimal_read_back(p.tcpport);
    assert(line.first() == 'p');
    assert(line.last() == port[port.len() - 1]);
}

/// The line that lists a peer gives the peer back, unless its ip holds a colon.
pub proof fn law_config_line_read_back(p: PeerView)
    requires
        p.id <= usize::MAX,
        p.tcpport <= usize::MAX,
        !p.ip.contains(':'),
    ensures
        peer_of_line(p.config_line()) == Some(p),
{
    lemma_line_is_trimmed(p);
    lemma_line_parts(p.id, p.addr());
    law_addr_read_back(p);
}

/// The view of a peer is its id, its ip and its port.
pub proof fn law_peer_view(p: Peer)
    ensures
        p@.id == p.id,
        p@.ip == p.ip@,
        p@.tcpport == p.tcpport,
{
}

/// An address is the ip, a colon and the port in decimal.
pub proof fn law_addr_has_its_form(p: PeerView)
    ensures
        p.addr() == p.ip + seq![':'] + decimal(p.tcpport),
{
    reveal_strlit(":");
    assert(":"@ =~= seq![':']);
}

/// Every peer with another id is among the other peers, and the other peers are such peers.
pub proof fn law_other_peers_are_all_others(peers: Seq<Peer>, id: usize)
    ensures
        forall|i: int|
            0 <= i < peers.len() && (#[trigger] peers[i]).id != id ==> peers_but(
                peers,
                id,
            ).contains(peers[i]),
        forall|j: int|
            0 <= j < peers_but(peers, id).len() ==> (#[trigger] peers_but(peers, id)[j]).id != id
                && peers.contains(peers_but(peers, id)[j]),
    decreases peers.len(),
{
    if peers.len() > 0 {
        let front = peers.drop_last();
        let last = peers.last();
        law_other_peers_are_all_others(front, id);
        law_other_peers_one_more(front, id, last);
        assert(front.push(last) =~= peers);
        let before = peers_but(front, id);
        let after = peers_but(peers, id);
        assert forall|i: int|
            0 <= i < peers.len() && (#[trigger] peers[i]).id != id implies after.contains(
            peers[i],
        ) by {
            if i < front.len() {
                assert(front[i] == peers[i]);
                assert(before.contains(front[i]));
                let k = choose|k: int| 0 <= k < before.len() && before[k] == front[i];
                assert(after[k] == peers[i]);
            } else {
                assert(after[after.len() - 1] == last);
            }
        }
        assert forall|j: int| 0 <= j < after.len() implies (#[trigger] after[j]).id != id
            && peers.contains(after[j]) by {
            if j < before.len() {
                assert(after[j] == before[j]);
                assert(front.contains(before[j]));
                let k = choose|k: int| 0 <= k < front.len() && front[k] == before[j];
                assert(peers[k] == after[j]);
            } else {
                assert(peers[peers.len() - 1] == after[j]);
            }
        }
    } else {
        reveal(Seq::filter);
    }
}

/// One more peer is one more of the others, behind them, unless it has the id. Of no peers none
/// are others.
pub proof fn law_other_peers_one_more(peers: Seq<Peer>, id: usize, p: Peer)
    ensures
        p.id != id ==> peers_but(peers.push(p), id) == peers_but(peers, id).push(p),
        p.id == id ==> peers_but(peers.push(p), id) == peers_but(peers, id),
        peers_but(Seq::empty(), id) == Seq::<Peer>::empty(),
{
    reveal(Seq::filter);
    assert(peers.push(p).drop_last() =~= peers);
    assert(peers_but(Seq::empty(), id) =~= Seq::<Peer>::empty());
}

/// Each peer with another id is among the other peers as often as among all, and none with the id
/// is.
pub proof fn law_other_peers_as_often(peers: Seq<Peer>, id: usize, p: Peer)
    ensures
        peers_but(peers, id).to_multiset().count(p) == if p.id != id {
            peers.to_multiset().count(p)
        } else {
            0
        },
    decreases peers.len(),
{
    broadcast use vstd::seq_lib::group_to_multiset_ensures;

    if peers.len() > 0 {
        let front = peers.drop_last();
        let last = peers.last();
        law_other_peers_as_often(front, id, p);
        law_other_peers_one_more(front, id, last);
        assert(front.push(last) =~= peers);
    } else {
        reveal(Seq::filter);
        assert(peers =~= Seq::<Peer>::empty());
        assert(peers_but(peers, id) =~= peers);
        assert(!peers.contains(p));
    }
}

/// A line of the configuration file, with white space around it or not, lists the peer that stands
/// in it.
pub proof fn law_line_lists_its_peer(
    a: Seq<char>,
    id: Seq<char>,
    ip: Seq<char>,
    port: Seq<char>,
    b: Seq<char>,
)
    requires
        forall|i: int| 0 <= i < a.len() ==> is_white_space(#[trigger] a[i]),
        forall|i: int| 0 <= i < b.len() ==> is_white_space(#[trigger] b[i]),
        id.len() > 0,
        forall|i: int| 0 <= i < id.len() ==> '0' <= #[trigger] id[i] <= '9',
        number_value(id) <= usize::MAX,
        forall|i: int| 0 <= i < ip.len() ==> #[trigger] ip[i] != ':',
        port.len() > 0,
        forall|i: int| 0 <= i < port.len() ==> '0' <= #[trigger] port[i] <= '9',
        number_value(port) <= usize::MAX,
    ensures
        peer_of_line(
            a + ("peer."@ + id + ".addr = "@ + (ip + seq![':'] + port)) + b,
        ) == Some(PeerView { id: number_value(id), ip, tcpport: number_value(port) }),
{
    let addr = ip + seq![':'] + port;
    lemma_line_is_taken_apart(id, addr);
    lemma_addr_is_taken_apart(ip, port);
    let text = "peer."@ + id + ".addr = "@ + addr;
    assert(text[0] == 'p') by {
        reveal_strlit("peer.");
    }
    assert(text[text.len() - 1] == port[port.len() - 1]);
    law_trim_keeps_the_core(a, text, b);
    law_digits_are_a_number(id);
    law_digits_are_a_number(port);
}

/// A line is taken apart at its first dot after `peer.`.
proof fn lemma_line_is_taken_apart(id: Seq<char>, addr: Seq<char>)
    requires
        id.len() > 0,
        forall|i: int| 0 <= i < id.len() ==> '0' <= #[trigger] id[i] <= '9',
        number_value(id) <= usize::MAX,
    ensures
        line_parts_of("peer."@ + id + ".addr = "@ + addr) == Some((number_value(id), addr)),
{
    reveal_strlit("peer.");
    reveal_strlit(".addr = ");
    let text = "peer."@ + id + ".addr = "@ + addr;
    let tail = text.skip(5);
    let dot = id.len() as int;
    law_digits_are_a_number(id);
    assert("peer."@ =~= text.take(5));
    assert(tail =~= id + ".addr = "@ + addr);
    assert forall|i: int| 0 <= i < dot implies tail[i] != '.' by {
        assert(tail[i] == id[i]);
    }
    assert(tail[dot] == '.');
    lemma_position_of(tail, '.', dot);
    assert(tail.take(dot) =~= id);
    assert(".addr = "@ =~= tail.skip(dot).take(8));
    assert(tail.skip(dot + 8) =~= addr);
}

/// An address is taken apart at its first colon.
proof fn lemma_addr_is_taken_apart(ip: Seq<char>, port: Seq<char>)
    requires
        forall|i: int| 0 <= i < ip.len() ==> #[trigger] ip[i] != ':',
        port.len() > 0,
        forall|i: int| 0 <= i < port.len() ==> '0' <= #[trigger] port[i] <= '9',
        number_value(port) <= usize::MAX,
    ensures
        addr_parts_of(ip + seq![':'] + port) == Some((ip, number_value(port))),
{
    let addr = ip + seq![':'] + port;
    let colon = ip.len() as int;
    law_digits_are_a_number(port);
    assert(addr[colon] == ':');
    assert forall|i: int| 0 <= i < colon implies addr[i] != ':' by {
        assert(addr[i] == ip[i]);
    }
    lemma_position_of(addr, ':', colon);
    assert(addr.take(colon) =~= ip);
    assert(addr.skip(colon + 1) =~= port);
}

/// A line that lists a peer has the form of such a line: its id and its port are those that the
/// line notes, and its ip stands between.
pub proof fn law_line_that_lists_a_peer_has_its_form(line: Seq<char>)
    requires
        peer_of_line(line) is Some,
    ensures
        ({
            let p = peer_of_line(line)->0;
            exists|id: Seq<char>, port: Seq<char>|
                #![trigger number_of(id), number_of(port)]
                {
                    &&& trim_of(line) == "peer."@ + id + ".addr = "@ + (p.ip + seq![':'] + port)
                    &&& number_of(id) == Some(p.id)
                    &&& number_of(port) == Some(p.tcpport)
                    &&& !id.contains('.')
                    &&& !p.ip.contains(':')
                }
        }),
{
    let p = peer_of_line(line)->0;
    let text = trim_of(line);
    let addr = (line_parts_of(text)->0).1;
    let id = lemma_line_has_its_form(text);
    let port = lemma_addr_has_its_form(addr);
    assert(number_of(id) == Some(p.id));
    assert(number_of(port) == Some(p.tcpport));
}

/// A text with an id and an address in it is `peer.`, the id, `.addr = ` and the address.
proof fn lemma_line_has_its_form(text: Seq<char>) -> (id: Seq<char>)
    requires
        line_parts_of(text) is Some,
    ensures
        text == "peer."@ + id + ".addr = "@ + (line_parts_of(text)->0).1,
        number_of(id) == Some((line_parts_of(text)->0).0),
        !id.contains('.'),
{
    let tail = text.skip(5);
    let dot = position_of(tail, '.') as int;
    let id = tail.take(dot);
    let key = tail.skip(dot);
    let addr = tail.skip(dot + 8);
    assert(text == "peer."@ + tail) by {
        reveal_strlit("peer.");
        assert(text =~= text.subrange(0, 5) + tail);
    }
    assert(key == ".addr = "@ + addr) by {
        reveal_strlit(".addr = ");
        law_position_of(tail, '.');
        assert(key.skip(8) =~= addr);
        assert(key =~= key.subrange(0, 8) + key.skip(8));
    }
    assert(tail =~= id + key) by {
        reveal_strlit(".addr = ");
        law_position_of(tail, '.');
    }
    assert(!id.contains('.')) by {
        law_position_of(tail, '.');
    }
    assert("peer."@ + (id + (".addr = "@ + addr)) =~= "peer."@ + id + ".addr = "@ + addr);
    id
}

/// A text with an ip and a port in it is the ip, a colon and the port.
proof fn lemma_addr_has_its_form(addr: Seq<char>) -> (port: Seq<char>)
    requires
        addr_parts_of(addr) is Some,
    ensures
        addr == (addr_parts_of(addr)->0).0 + seq![':'] + port,
        number_of(port) == Some((addr_parts_of(addr)->0).1),
        !(addr_parts_of(addr)->0).0.contains(':'),
{
    let colon = position_of(addr, ':') as int;
    law_position_of(addr, ':');
    let port = addr.skip(colon + 1);
    assert(addr =~= addr.take(colon) + seq![':'] + port);
    port
}

/// A configuration file with one line for each of some servers gives those servers back, each with
/// its id, its ip and its port, and in their order.
pub proof fn law_config_lists_its_peers(
    lines: Seq<String>,
    servers: Seq<PeerView>,
    r: Result<Vec<Peer>, usize>,
)
    requires
        is_config_of(lines, r),
        lines.len() == servers.len(),
        forall|i: int|
            0 <= i < lines.len() ==> (#[trigger] lines[i])@ == servers[i].config_line()
                && servers[i].id <= usize::MAX && servers[i].tcpport <= usize::MAX
                && !servers[i].ip.contains(':'),
    ensures
        r matches Ok(peers) && peers@.len() == servers.len() && forall|i: int|
            0 <= i < servers.len() ==> (#[trigger] peers@[i]).id == servers[i].id && peers@[i].ip@
                == servers[i].ip && peers@[i].tcpport == servers[i].tcpport,
{
    assert forall|i: int| 0 <= i < lines.len() implies peer_of_line((#[trigger] lines[i])@) == Some(
        servers[i],
    ) by {
        law_config_line_read_back(servers[i]);
    }
    if let Ok(peers) = r {
        assert forall|i: int| 0 <= i < servers.len() implies (#[trigger] peers@[i])@
            == servers[i] by {
            assert(peer_of_line(lines[i]@) == Some(servers[i]));
        }
    }
}

/// The first line that lists no peer is the one that is refused, whatever follows it.
pub proof fn law_config_is_refused_at_its_first_fault(
    lines: Seq<String>,
    k: int,
    r: Result<Vec<Peer>, usize>,
)
    requires
        is_config_of(lines, r),
        0 <= k < lines.len(),
        forall|i: int| 0 <= i < k ==> peer_of_line((#[trigger] lines[i])@) is Some,
        peer_of_line(lines[k]@) is None,
    ensures
        r matches Err(n) && n == k,
{
    if let Err(n) = r {
        assert(n < k ==> peer_of_line(lines[n as int]@) is Some);
        assert(k < n ==> peer_of_line(lines[k]@) is Some);
    }
}

} // verus!
