//! Topic namespace, message types, and validated identifiers.
//!
//! `namespace/group_id/message_type/edge_node_id/[device_id]`, with the constant
//! namespace `spBv1.0`. A topic is an enum, so the token-count ↔ message-type
//! invariant is enforced by the type system, and there is a single canonical
//! parser. Formatting and parsing undo each other ([`lemma_parse_format`],
//! [`lemma_format_parse`]).
use vstd::prelude::*;

use crate::error::SparkplugError;
use crate::text::{join_on, lemma_join_split, lemma_split_join, lemma_split_len, split_on, split_str};
use crate::util::{chars_of, concat_str, str_eq};

verus! {

/// The Sparkplug B namespace token.
pub const NAMESPACE: &'static str = "spBv1.0";

/// The STATE topic token (`spBv1.0/STATE/<host_id>`).
pub const STATE_TOKEN: &'static str = "STATE";

/// The characters of the namespace token.
pub open spec fn namespace() -> Seq<char> {
    seq!['s', 'p', 'B', 'v', '1', '.', '0']
}

/// The characters of the STATE token.
pub open spec fn state_token() -> Seq<char> {
    seq!['S', 'T', 'A', 'T', 'E']
}

/// A Sparkplug message type (the topic's `message_type` token).
#[derive(Clone, Copy, Debug, PartialEq, Eq, Structural, Hash)]
pub enum MessageType {
    /// Edge Node birth certificate.
    NBirth,
    /// Edge Node death certificate.
    NDeath,
    /// Edge Node data.
    NData,
    /// Edge Node command.
    NCmd,
    /// Device birth certificate.
    DBirth,
    /// Device death certificate.
    DDeath,
    /// Device data.
    DData,
    /// Device command.
    DCmd,
    /// Host Application state.
    State,
}

/// The wire token of a message type.
pub open spec fn token(t: MessageType) -> Seq<char> {
    match t {
        MessageType::NBirth => seq!['N', 'B', 'I', 'R', 'T', 'H'],
        MessageType::NDeath => seq!['N', 'D', 'E', 'A', 'T', 'H'],
        MessageType::NData => seq!['N', 'D', 'A', 'T', 'A'],
        MessageType::NCmd => seq!['N', 'C', 'M', 'D'],
        MessageType::DBirth => seq!['D', 'B', 'I', 'R', 'T', 'H'],
        MessageType::DDeath => seq!['D', 'D', 'E', 'A', 'T', 'H'],
        MessageType::DData => seq!['D', 'D', 'A', 'T', 'A'],
        MessageType::DCmd => seq!['D', 'C', 'M', 'D'],
        MessageType::State => state_token(),
    }
}

/// The message type whose token is `s`, if any.
pub open spec fn message_type_of(s: Seq<char>) -> Option<MessageType> {
    if s == token(MessageType::NBirth) {
        Some(MessageType::NBirth)
    } else if s == token(MessageType::NDeath) {
        Some(MessageType::NDeath)
    } else if s == token(MessageType::NData) {
        Some(MessageType::NData)
    } else if s == token(MessageType::NCmd) {
        Some(MessageType::NCmd)
    } else if s == token(MessageType::DBirth) {
        Some(MessageType::DBirth)
    } else if s == token(MessageType::DDeath) {
        Some(MessageType::DDeath)
    } else if s == token(MessageType::DData) {
        Some(MessageType::DData)
    } else if s == token(MessageType::DCmd) {
        Some(MessageType::DCmd)
    } else if s == token(MessageType::State) {
        Some(MessageType::State)
    } else {
        None
    }
}

/// Whether a message type addresses a Device.
pub open spec fn has_device(t: MessageType) -> bool {
    t == MessageType::DBirth || t == MessageType::DDeath || t == MessageType::DData || t
        == MessageType::DCmd
}

/// Each token names its own message type.
pub proof fn lemma_token_roundtrip(t: MessageType)
    ensures
        message_type_of(token(t)) == Some(t),
        !token(t).contains('/'),
{
    let s = token(t);
    assert(s.len() <= 6);
    assert forall|i: int| 0 <= i < s.len() implies s[i] != '/' by {}
}

impl MessageType {
    /// The wire token as an owned `String` (what `Display` prints).
    pub fn to_string(self) -> (s: String)
        ensures
            s@ == token(self),
    {
        String::from_str(self.as_str())
    }

    /// The wire token (`"NBIRTH"`, `"DDATA"`, …).
    pub fn as_str(self) -> (s: &'static str)
        ensures
            s@ == token(self),
    {
        match self {
            MessageType::NBirth => {
                proof {
                    reveal_strlit("NBIRTH");
                }
                "NBIRTH"
            },
            MessageType::NDeath => {
                proof {
                    reveal_strlit("NDEATH");
                }
                "NDEATH"
            },
            MessageType::NData => {
                proof {
                    reveal_strlit("NDATA");
                }
                "NDATA"
            },
            MessageType::NCmd => {
                proof {
                    reveal_strlit("NCMD");
                }
                "NCMD"
            },
            MessageType::DBirth => {
                proof {
                    reveal_strlit("DBIRTH");
                }
                "DBIRTH"
            },
            MessageType::DDeath => {
                proof {
                    reveal_strlit("DDEATH");
                }
                "DDEATH"
            },
            MessageType::DData => {
                proof {
                    reveal_strlit("DDATA");
                }
                "DDATA"
            },
            MessageType::DCmd => {
                proof {
                    reveal_strlit("DCMD");
                }
                "DCMD"
            },
            MessageType::State => {
                proof {
                    reveal_strlit("STATE");
                }
                "STATE"
            },
        }
    }

    /// Whether this message type addresses a Device (carries a `device_id`).
    pub fn has_device(self) -> (b: bool)
        ensures
            b == has_device(self),
    {
        match self {
            MessageType::DBirth | MessageType::DDeath | MessageType::DData | MessageType::DCmd => true,
            _ => false,
        }
    }

    /// Whether a payload of this type carries a sequence number. NDEATH, NCMD,
    /// DCMD, and STATE do not.
    pub fn carries_seq(self) -> (b: bool)
        ensures
            b == (self == MessageType::NBirth || self == MessageType::NData || self == MessageType::DBirth
                || self == MessageType::DData || self == MessageType::DDeath),
    {
        match self {
            MessageType::NBirth | MessageType::NData | MessageType::DBirth | MessageType::DData
            | MessageType::DDeath => true,
            _ => false,
        }
    }

    /// Whether this is a command (NCMD/DCMD).
    pub fn is_command(self) -> (b: bool)
        ensures
            b == (self == MessageType::NCmd || self == MessageType::DCmd),
    {
        match self {
            MessageType::NCmd | MessageType::DCmd => true,
            _ => false,
        }
    }

    /// The message type whose token is `s`.
    pub fn from_token(s: &str) -> (res: Result<MessageType, SparkplugError>)
        ensures
            match message_type_of(s@) {
                Some(t) => res matches Ok(x) && x == t,
                None => res matches Err(e) && e is InvalidTopic,
            },
    {
        let all = [
            MessageType::NBirth,
            MessageType::NDeath,
            MessageType::NData,
            MessageType::NCmd,
            MessageType::DBirth,
            MessageType::DDeath,
            MessageType::DData,
            MessageType::DCmd,
            MessageType::State,
        ];
        let mut i: usize = 0;
        while i < 9
            invariant
                all@ == seq![
                    MessageType::NBirth,
                    MessageType::NDeath,
                    MessageType::NData,
                    MessageType::NCmd,
                    MessageType::DBirth,
                    MessageType::DDeath,
                    MessageType::DData,
                    MessageType::DCmd,
                    MessageType::State,
                ],
                i <= 9,
                forall|k: int| 0 <= k < i ==> s@ != token(#[trigger] all@[k]),
            decreases 9 - i,
        {
            let t = all[i];
            if str_eq(s, t.as_str()) {
                return Ok(t);
            }
            i = i + 1;
        }
        proof {
            assert(s@ != token(all@[0]));
            assert(s@ != token(all@[1]));
            assert(s@ != token(all@[2]));
            assert(s@ != token(all@[3]));
            assert(s@ != token(all@[4]));
            assert(s@ != token(all@[5]));
            assert(s@ != token(all@[6]));
            assert(s@ != token(all@[7]));
            assert(s@ != token(all@[8]));
        }
        let msg = concat_str("unknown message type ", s);
        Err(SparkplugError::InvalidTopic(msg))
    }
}

impl std::str::FromStr for MessageType {
    type Err = SparkplugError;

    fn from_str(s: &str) -> (res: Result<MessageType, SparkplugError>)
        ensures
            match message_type_of(s@) {
                Some(t) => res matches Ok(x) && x == t,
                None => res matches Err(e) && e is InvalidTopic,
            },
    {
        MessageType::from_token(s)
    }
}

/// A Sparkplug identifier token: non-empty and free of the reserved MQTT
/// characters `+`, `/`, `#`.
pub open spec fn id_valid(s: Seq<char>) -> bool {
    s.len() > 0 && !s.contains('+') && !s.contains('/') && !s.contains('#')
}

/// An identifier is valid exactly when it is non-empty and none of its
/// characters is one of the reserved MQTT characters `+`, `/` and `#`; every
/// other character (`_`, `-`, `.`, spaces, non-ASCII letters, …) is allowed.
pub proof fn lemma_id_valid_chars(s: Seq<char>)
    ensures
        id_valid(s) <==> (s.len() > 0 && forall|i: int|
            0 <= i < s.len() ==> #[trigger] s[i] != '+' && s[i] != '/' && s[i] != '#'),
{
    if s.len() > 0 && forall|i: int| 0 <= i < s.len() ==> #[trigger] s[i] != '+' && s[i] != '/' && s[i] != '#' {
        assert(!s.contains('+'));
        assert(!s.contains('/'));
        assert(!s.contains('#'));
    }
    if id_valid(s) {
        assert forall|i: int| 0 <= i < s.len() implies #[trigger] s[i] != '+' && s[i] != '/' && s[i] != '#' by {
            if s[i] == '+' {
                assert(s.contains('+'));
            }
            if s[i] == '/' {
                assert(s.contains('/'));
            }
            if s[i] == '#' {
                assert(s.contains('#'));
            }
        }
    }
}

/// Validate a Sparkplug identifier token.
pub fn validate_id(s: &str) -> (res: Result<(), SparkplugError>)
    ensures
        res is Ok <==> id_valid(s@),
        res matches Err(e) ==> e is InvalidId,
{
    let cs = chars_of(s);
    if cs.len() == 0 {
        return Err(SparkplugError::InvalidId(String::from_str("identifier is empty")));
    }
    let mut i: usize = 0;
    while i < cs.len()
        invariant
            cs@ == s@,
            i <= cs@.len(),
            forall|k: int| 0 <= k < i ==> cs@[k] != '+' && cs@[k] != '/' && cs@[k] != '#',
        decreases cs@.len() - i,
    {
        let c = cs[i];
        if c == '+' || c == '/' || c == '#' {
            let msg = concat_str(s, " contains a reserved character (+, /, or #)");
            return Err(SparkplugError::InvalidId(msg));
        }
        i = i + 1;
    }
    Ok(())
}

/// A Sparkplug Group ID.
#[derive(Debug, PartialEq, Eq, Hash)]
pub struct GroupId(String);

/// A Sparkplug Edge Node ID.
#[derive(Debug, PartialEq, Eq, Hash)]
pub struct EdgeNodeId(String);

/// A Sparkplug Device ID.
#[derive(Debug, PartialEq, Eq, Hash)]
pub struct DeviceId(String);

impl Clone for GroupId {
    fn clone(&self) -> (c: Self)
        ensures
            c@ == self@,
    {
        proof {
            use_type_invariant(self);
        }
        GroupId(self.0.clone())
    }
}

impl Clone for EdgeNodeId {
    fn clone(&self) -> (c: Self)
        ensures
            c@ == self@,
    {
        proof {
            use_type_invariant(self);
        }
        EdgeNodeId(self.0.clone())
    }
}

impl Clone for DeviceId {
    fn clone(&self) -> (c: Self)
        ensures
            c@ == self@,
    {
        proof {
            use_type_invariant(self);
        }
        DeviceId(self.0.clone())
    }
}

impl View for GroupId {
    type V = Seq<char>;

    closed spec fn view(&self) -> Seq<char> {
        self.0@
    }
}

impl View for EdgeNodeId {
    type V = Seq<char>;

    closed spec fn view(&self) -> Seq<char> {
        self.0@
    }
}

impl View for DeviceId {
    type V = Seq<char>;

    closed spec fn view(&self) -> Seq<char> {
        self.0@
    }
}

impl GroupId {
    #[verifier::type_invariant]
    closed spec fn valid(self) -> bool {
        id_valid(self.0@)
    }

    /// Create the identifier, refusing an empty one or one with `+`, `/`, `#`.
    pub fn new(s: &str) -> (res: Result<Self, SparkplugError>)
        ensures
            res is Ok <==> id_valid(s@),
            res matches Ok(id) ==> id@ == s@,
            res matches Err(e) ==> e is InvalidId,
    {
        match validate_id(s) {
            Ok(()) => Ok(GroupId(String::from_str(s))),
            Err(e) => Err(e),
        }
    }

    /// The identifier as an owned `String` (what `Display` prints).
    pub fn to_string(&self) -> (s: String)
        ensures
            s@ == self@,
    {
        String::from_str(self.as_str())
    }

    /// The identifier as a string slice.
    pub fn as_str(&self) -> (s: &str)
        ensures
            s@ == self@,
            id_valid(s@),
    {
        proof {
            use_type_invariant(self);
        }
        self.0.as_str()
    }
}

impl EdgeNodeId {
    #[verifier::type_invariant]
    closed spec fn valid(self) -> bool {
        id_valid(self.0@)
    }

    /// Create the identifier, refusing an empty one or one with `+`, `/`, `#`.
    pub fn new(s: &str) -> (res: Result<Self, SparkplugError>)
        ensures
            res is Ok <==> id_valid(s@),
            res matches Ok(id) ==> id@ == s@,
            res matches Err(e) ==> e is InvalidId,
    {
        match validate_id(s) {
            Ok(()) => Ok(EdgeNodeId(String::from_str(s))),
            Err(e) => Err(e),
        }
    }

    /// The identifier as an owned `String` (what `Display` prints).
    pub fn to_string(&self) -> (s: String)
        ensures
            s@ == self@,
    {
        String::from_str(self.as_str())
    }

    /// The identifier as a string slice.
    pub fn as_str(&self) -> (s: &str)
        ensures
            s@ == self@,
            id_valid(s@),
    {
        proof {
            use_type_invariant(self);
        }
        self.0.as_str()
    }
}

impl DeviceId {
    #[verifier::type_invariant]
    closed spec fn valid(self) -> bool {
        id_valid(self.0@)
    }

    /// Create the identifier, refusing an empty one or one with `+`, `/`, `#`.
    pub fn new(s: &str) -> (res: Result<Self, SparkplugError>)
        ensures
            res is Ok <==> id_valid(s@),
            res matches Ok(id) ==> id@ == s@,
            res matches Err(e) ==> e is InvalidId,
    {
        match validate_id(s) {
            Ok(()) => Ok(DeviceId(String::from_str(s))),
            Err(e) => Err(e),
        }
    }

    /// The identifier as an owned `String` (what `Display` prints).
    pub fn to_string(&self) -> (s: String)
        ensures
            s@ == self@,
    {
        String::from_str(self.as_str())
    }

    /// The identifier as a string slice.
    pub fn as_str(&self) -> (s: &str)
        ensures
            s@ == self@,
            id_valid(s@),
    {
        proof {
            use_type_invariant(self);
        }
        self.0.as_str()
    }
}

/// A topic as a mathematical value.
pub enum TopicView {
    Node { group: Seq<char>, edge: Seq<char>, ty: MessageType },
    Device { group: Seq<char>, edge: Seq<char>, device: Seq<char>, ty: MessageType },
    HostState { host_id: Seq<char> },
}

/// A parsed Sparkplug B topic.
#[derive(Clone, Debug, PartialEq, Eq)]
pub enum SparkplugTopic {
    /// An Edge-Node-level topic (4 tokens; `N*` message types).
    Node {
        /// Group ID.
        group: GroupId,
        /// Edge Node ID.
        edge: EdgeNodeId,
        /// Message type (one of NBIRTH/NDEATH/NDATA/NCMD).
        ty: MessageType,
    },
    /// A Device-level topic (5 tokens; `D*` message types).
    Device {
        /// Group ID.
        group: GroupId,
        /// Edge Node ID.
        edge: EdgeNodeId,
        /// Device ID.
        device: DeviceId,
        /// Message type (one of DBIRTH/DDEATH/DDATA/DCMD).
        ty: MessageType,
    },
    /// A Host Application STATE topic (`spBv1.0/STATE/<host_id>`).
    HostState {
        /// Host Application ID.
        host_id: String,
    },
}

impl View for SparkplugTopic {
    type V = TopicView;

    open spec fn view(&self) -> TopicView {
        match self {
            SparkplugTopic::Node { group, edge, ty } => TopicView::Node { group: group@, edge: edge@, ty: *ty },
            SparkplugTopic::Device { group, edge, device, ty } => TopicView::Device {
                group: group@,
                edge: edge@,
                device: device@,
                ty: *ty,
            },
            SparkplugTopic::HostState { host_id } => TopicView::HostState { host_id: host_id@ },
        }
    }
}

/// The message type of a topic.
pub open spec fn topic_message_type(t: TopicView) -> MessageType {
    match t {
        TopicView::Node { ty, .. } => ty,
        TopicView::Device { ty, .. } => ty,
        TopicView::HostState { .. } => MessageType::State,
    }
}

/// A well-formed topic: valid identifiers, and a message type that matches its arity.
pub open spec fn topic_valid(t: TopicView) -> bool {
    match t {
        TopicView::Node { group, edge, ty } => id_valid(group) && id_valid(edge) && !has_device(ty) && ty
            != MessageType::State,
        TopicView::Device { group, edge, device, ty } => id_valid(group) && id_valid(edge) && id_valid(device)
            && has_device(ty),
        TopicView::HostState { host_id } => id_valid(host_id),
    }
}

/// The `/`-separated tokens of a topic.
pub open spec fn topic_tokens(t: TopicView) -> Seq<Seq<char>> {
    match t {
        TopicView::Node { group, edge, ty } => seq![namespace(), group, token(ty), edge],
        TopicView::Device { group, edge, device, ty } => seq![namespace(), group, token(ty), edge, device],
        TopicView::HostState { host_id } => seq![namespace(), state_token(), host_id],
    }
}

/// Three tokens joined.
pub proof fn lemma_join3(a: Seq<char>, b: Seq<char>, c: Seq<char>, sep: char)
    ensures
        join_on(seq![a, b, c], sep) == a.push(sep) + b.push(sep) + c,
{
    reveal_with_fuel(join_on, 4);
    let ps = seq![a, b, c];
    assert(ps.drop_last() =~= seq![a, b]);
    assert(ps.drop_last().drop_last() =~= seq![a]);
    assert(join_on(ps, sep) =~= a.push(sep) + b.push(sep) + c);
}

/// Four tokens joined.
pub proof fn lemma_join4(a: Seq<char>, b: Seq<char>, c: Seq<char>, d: Seq<char>, sep: char)
    ensures
        join_on(seq![a, b, c, d], sep) == a.push(sep) + b.push(sep) + c.push(sep) + d,
{
    let ps = seq![a, b, c, d];
    assert(ps.drop_last() =~= seq![a, b, c]);
    lemma_join3(a, b, c, sep);
    assert(join_on(ps, sep) =~= a.push(sep) + b.push(sep) + c.push(sep) + d);
}

/// Five tokens joined.
pub proof fn lemma_join5(a: Seq<char>, b: Seq<char>, c: Seq<char>, d: Seq<char>, e: Seq<char>, sep: char)
    ensures
        join_on(seq![a, b, c, d, e], sep) == a.push(sep) + b.push(sep) + c.push(sep) + d.push(sep) + e,
{
    let ps = seq![a, b, c, d, e];
    assert(ps.drop_last() =~= seq![a, b, c, d]);
    lemma_join4(a, b, c, d, sep);
    assert(join_on(ps, sep) =~= a.push(sep) + b.push(sep) + c.push(sep) + d.push(sep) + e);
}

/// The topic string: its tokens joined with `/`.
pub open spec fn topic_string(t: TopicView) -> Seq<char> {
    join_on(topic_tokens(t), '/')
}

/// The layout of a topic string: `spBv1.0/<group>/<TYPE>/<edge>` for an Edge
/// Node, `spBv1.0/<group>/<TYPE>/<edge>/<device>` for a Device, and
/// `spBv1.0/STATE/<host>` for a Host Application; the message-type tokens are
/// `NBIRTH`, `NDEATH`, `NDATA`, `NCMD`, `DBIRTH`, `DDEATH`, `DDATA`, `DCMD`.
pub proof fn lemma_topic_layout(t: TopicView)
    ensures
        t matches TopicView::Node { group, edge, ty } ==> topic_string(t) == seq![
            's', 'p', 'B', 'v', '1', '.', '0', '/',
        ] + group + seq!['/'] + token(ty) + seq!['/'] + edge,
        t matches TopicView::Device { group, edge, device, ty } ==> topic_string(t) == seq![
            's', 'p', 'B', 'v', '1', '.', '0', '/',
        ] + group + seq!['/'] + token(ty) + seq!['/'] + edge + seq!['/'] + device,
        t matches TopicView::HostState { host_id } ==> topic_string(t) == seq![
            's', 'p', 'B', 'v', '1', '.', '0', '/', 'S', 'T', 'A', 'T', 'E', '/',
        ] + host_id,
        token(MessageType::NBirth) == seq!['N', 'B', 'I', 'R', 'T', 'H'],
        token(MessageType::NDeath) == seq!['N', 'D', 'E', 'A', 'T', 'H'],
        token(MessageType::NData) == seq!['N', 'D', 'A', 'T', 'A'],
        token(MessageType::NCmd) == seq!['N', 'C', 'M', 'D'],
        token(MessageType::DBirth) == seq!['D', 'B', 'I', 'R', 'T', 'H'],
        token(MessageType::DDeath) == seq!['D', 'D', 'E', 'A', 'T', 'H'],
        token(MessageType::DData) == seq!['D', 'D', 'A', 'T', 'A'],
        token(MessageType::DCmd) == seq!['D', 'C', 'M', 'D'],
{
    let ns = seq!['s', 'p', 'B', 'v', '1', '.', '0'];
    assert(namespace() =~= ns);
    match t {
        TopicView::Node { group, edge, ty } => {
            lemma_join4(namespace(), group, token(ty), edge, '/');
            assert(ns.push('/') + group.push('/') + token(ty).push('/') + edge =~= seq![
                's', 'p', 'B', 'v', '1', '.', '0', '/',
            ] + group + seq!['/'] + token(ty) + seq!['/'] + edge);
        },
        TopicView::Device { group, edge, device, ty } => {
            lemma_join5(namespace(), group, token(ty), edge, device, '/');
            assert(ns.push('/') + group.push('/') + token(ty).push('/') + edge.push('/') + device =~= seq![
                's', 'p', 'B', 'v', '1', '.', '0', '/',
            ] + group + seq!['/'] + token(ty) + seq!['/'] + edge + seq!['/'] + device);
        },
        TopicView::HostState { host_id } => {
            lemma_join3(namespace(), state_token(), host_id, '/');
            assert(ns.push('/') + state_token().push('/') + host_id =~= seq![
                's', 'p', 'B', 'v', '1', '.', '0', '/', 'S', 'T', 'A', 'T', 'E', '/',
            ] + host_id);
        },
    }
}

/// Parsing a topic string: the namespace first, then by token count, the
/// message type, whether it matches the count, then each identifier in order.
pub open spec fn parse_topic(s: Seq<char>) -> Result<TopicView, crate::error::ErrorKind> {
    let parts = split_on(s, '/');
    if parts[0] != namespace() {
        Err(crate::error::ErrorKind::InvalidTopic)
    } else if parts.len() == 3 && parts[1] == state_token() {
        if id_valid(parts[2]) {
            Ok(TopicView::HostState { host_id: parts[2] })
        } else {
            Err(crate::error::ErrorKind::InvalidId)
        }
    } else if parts.len() == 4 || parts.len() == 5 {
        match message_type_of(parts[2]) {
            None => Err(crate::error::ErrorKind::InvalidTopic),
            Some(ty) => if parts.len() == 4 && (has_device(ty) || ty == MessageType::State) {
                Err(crate::error::ErrorKind::InvalidTopic)
            } else if parts.len() == 5 && !has_device(ty) {
                Err(crate::error::ErrorKind::InvalidTopic)
            } else if !id_valid(parts[1]) || !id_valid(parts[3]) {
                Err(crate::error::ErrorKind::InvalidId)
            } else if parts.len() == 4 {
                Ok(TopicView::Node { group: parts[1], edge: parts[3], ty })
            } else if !id_valid(parts[4]) {
                Err(crate::error::ErrorKind::InvalidId)
            } else {
                Ok(TopicView::Device { group: parts[1], edge: parts[3], device: parts[4], ty })
            },
        }
    } else {
        Err(crate::error::ErrorKind::InvalidTopic)
    }
}

impl SparkplugTopic {
    /// Build an Edge-Node topic; the message type must be a non-device `N*` type.
    pub fn node(group: GroupId, edge: EdgeNodeId, ty: MessageType) -> (res: Result<Self, SparkplugError>)
        ensures
            res is Ok <==> !has_device(ty) && ty != MessageType::State,
            res matches Ok(t) ==> t@ == (TopicView::Node { group: group@, edge: edge@, ty }),
            res matches Err(e) ==> e is InvalidTopic,
    {
        if ty.has_device() || ty == MessageType::State {
            let msg = concat_str(ty.as_str(), " is not an Edge-Node message type");
            return Err(SparkplugError::InvalidTopic(msg));
        }
        Ok(SparkplugTopic::Node { group, edge, ty })
    }

    /// Build a Device topic; the message type must be a `D*` type.
    pub fn device(group: GroupId, edge: EdgeNodeId, device: DeviceId, ty: MessageType) -> (res: Result<
        Self,
        SparkplugError,
    >)
        ensures
            res is Ok <==> has_device(ty),
            res matches Ok(t) ==> t@ == (TopicView::Device { group: group@, edge: edge@, device: device@, ty }),
            res matches Err(e) ==> e is InvalidTopic,
    {
        if !ty.has_device() {
            let msg = concat_str(ty.as_str(), " is not a Device message type");
            return Err(SparkplugError::InvalidTopic(msg));
        }
        Ok(SparkplugTopic::Device { group, edge, device, ty })
    }

    /// The message type of this topic.
    pub fn message_type(&self) -> (t: MessageType)
        ensures
            t == topic_message_type(self@),
    {
        match self {
            SparkplugTopic::Node { ty, .. } => *ty,
            SparkplugTopic::Device { ty, .. } => *ty,
            SparkplugTopic::HostState { .. } => MessageType::State,
        }
    }

    /// Parse a topic string into a validated [`SparkplugTopic`]: a bad namespace,
    /// a wrong token count or a message type that does not match it is
    /// `InvalidTopic`, a bad identifier `InvalidId`.
    pub fn parse(topic: &str) -> (res: Result<Self, SparkplugError>)
        ensures
            match parse_topic(topic@) {
                Ok(v) => res matches Ok(t) && t@ == v,
                Err(k) => res matches Err(e) && e.kind() == k,
            },
    {
        let parts = split_str(topic, '/');
        let ghost pv = parts@.map_values(|p: String| p@);
        proof {
            lemma_split_len(topic@, '/');
            reveal_strlit("spBv1.0");
            reveal_strlit("STATE");
            assert(NAMESPACE@ == namespace());
            assert(STATE_TOKEN@ == state_token());
        }
        assert(pv[0] == parts@[0]@);
        if !str_eq(parts[0].as_str(), NAMESPACE) {
            let msg = concat_str("topic must start with spBv1.0: ", topic);
            return Err(SparkplugError::InvalidTopic(msg));
        }
        let n = parts.len();
        if n == 3 && str_eq(parts[1].as_str(), STATE_TOKEN) {
            assert(pv[1] == parts@[1]@ && pv[2] == parts@[2]@);
            return match validate_id(parts[2].as_str()) {
                Ok(()) => Ok(SparkplugTopic::HostState { host_id: parts[2].clone() }),
                Err(e) => Err(e),
            };
        }
        if n != 4 && n != 5 {
            let msg = concat_str("unexpected token count in topic ", topic);
            return Err(SparkplugError::InvalidTopic(msg));
        }
        assert(pv[1] == parts@[1]@ && pv[2] == parts@[2]@ && pv[3] == parts@[3]@);
        let ty = match MessageType::from_token(parts[2].as_str()) {
            Ok(t) => t,
            Err(e) => return Err(e),
        };
        if n == 4 && (ty.has_device() || ty == MessageType::State) {
            let msg = concat_str(ty.as_str(), " requires a different token count");
            return Err(SparkplugError::InvalidTopic(msg));
        }
        if n == 5 && !ty.has_device() {
            let msg = concat_str(ty.as_str(), " must not include a device_id");
            return Err(SparkplugError::InvalidTopic(msg));
        }
        let group = match GroupId::new(parts[1].as_str()) {
            Ok(g) => g,
            Err(e) => return Err(e),
        };
        let edge = match EdgeNodeId::new(parts[3].as_str()) {
            Ok(g) => g,
            Err(e) => return Err(e),
        };
        if n == 4 {
            return Ok(SparkplugTopic::Node { group, edge, ty });
        }
        assert(pv[4] == parts@[4]@);
        let device = match DeviceId::new(parts[4].as_str()) {
            Ok(d) => d,
            Err(e) => return Err(e),
        };
        Ok(SparkplugTopic::Device { group, edge, device, ty })
    }

    /// The topic string, `spBv1.0/<group>/<type>/<edge>[/<device>]` or
    /// `spBv1.0/STATE/<host_id>`.
    pub fn to_string(&self) -> (s: String)
        ensures
            s@ == topic_string(self@),
    {
        proof {
            reveal_strlit("spBv1.0");
            reveal_strlit("STATE");
            reveal_strlit("/");
        }
        let mut s = String::from_str(NAMESPACE);
        match self {
            SparkplugTopic::Node { group, edge, ty } => {
                s.append("/");
                s.append(group.as_str());
                s.append("/");
                s.append(ty.as_str());
                s.append("/");
                s.append(edge.as_str());
                proof {
                    lemma_join4(namespace(), group@, token(*ty), edge@, '/');
                    assert(s@ =~= topic_string(self@));
                }
            },
            SparkplugTopic::Device { group, edge, device, ty } => {
                s.append("/");
                s.append(group.as_str());
                s.append("/");
                s.append(ty.as_str());
                s.append("/");
                s.append(edge.as_str());
                s.append("/");
                s.append(device.as_str());
                proof {
                    lemma_join5(namespace(), group@, token(*ty), edge@, device@, '/');
                    assert(s@ =~= topic_string(self@));
                }
            },
            SparkplugTopic::HostState { host_id } => {
                s.append("/");
                s.append(STATE_TOKEN);
                s.append("/");
                s.append(host_id.as_str());
                proof {
                    lemma_join3(namespace(), state_token(), host_id@, '/');
                    assert(s@ =~= topic_string(self@));
                }
            },
        }
        s
    }
}

/// Formatting a well-formed topic and parsing the string gives the topic back.
pub proof fn lemma_parse_format(t: TopicView)
    requires
        topic_valid(t),
    ensures
        parse_topic(topic_string(t)) == Ok::<TopicView, crate::error::ErrorKind>(t),
{
    let ts = topic_tokens(t);
    assert forall|i: int| 0 <= i < ts.len() implies !(#[trigger] ts[i]).contains('/') by {
        match t {
            TopicView::Node { ty, .. } => {
                lemma_token_roundtrip(ty);
            },
            TopicView::Device { ty, .. } => {
                lemma_token_roundtrip(ty);
            },
            _ => {},
        }
        if i == 0 {
            assert forall|k: int| 0 <= k < namespace().len() implies namespace()[k] != '/' by {}
        }
        if i == 1 && t is HostState {
            assert forall|k: int| 0 <= k < state_token().len() implies state_token()[k] != '/' by {}
        }
    }
    lemma_split_join(ts, '/');
    match t {
        TopicView::Node { ty, .. } => {
            lemma_token_roundtrip(ty);
        },
        TopicView::Device { ty, .. } => {
            lemma_token_roundtrip(ty);
        },
        _ => {},
    }
}

/// A topic string that parses is the string of the topic it parses to.
pub proof fn lemma_format_parse(s: Seq<char>)
    requires
        parse_topic(s) is Ok,
    ensures
        topic_string(parse_topic(s)->Ok_0) == s,
{
    let parts = split_on(s, '/');
    lemma_join_split(s, '/');
    let t = parse_topic(s)->Ok_0;
    match t {
        TopicView::Node { ty, .. } => {
            assert(topic_tokens(t) =~= parts);
        },
        TopicView::Device { ty, .. } => {
            assert(topic_tokens(t) =~= parts);
        },
        TopicView::HostState { .. } => {
            assert(topic_tokens(t) =~= parts);
        },
    }
}

} // verus!
