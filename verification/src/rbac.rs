//! Roles, privileges, and the decision of whether one holds the other.
//!
//! A privilege is a verb, an object is one of three levels, and a grant files a set of verbs
//! under a role and an object. Nothing subtracts: what a role holds on an object is the union
//! of what it was granted on the object and on each level above it.

use vstd::prelude::*;
use crate::sorted::{Key, Sorted};
use crate::text::{push_dec, same};

verus! {

/// A named set of privileges. Not a person.
pub type RoleId = u32;

/// The id a catalog gave a database.
pub type DatabaseId = u32;

/// The id a catalog gave a table.
pub type TableId = u32;

/// A grant's database word when the grant is about every database. The top of the range, which
/// the id allocator never reaches.
pub const ANY_DATABASE: DatabaseId = u32::MAX;

/// A grant's table word when the grant is about every table in its database.
pub const ANY_TABLE: TableId = u32::MAX;

/// The role that holds everything, exists without being created, and cannot be dropped.
/// Reserved by name and never stored.
pub const SUPERUSER: &'static str = "superuser";

/// How many roles a store may hold.
pub const MAX_ROLES: usize = 64;

/// How many grants a store may hold, across every role.
pub const MAX_GRANTS: usize = 256;

/// One thing a role may be allowed to do.
#[derive(Clone, Copy, PartialEq, Eq, PartialOrd, Ord, Debug, Structural)]
pub enum Privilege {
    /// Read rows: `SELECT`, and the `SHOW`/`DESCRIBE` that name the same object.
    Select,
    /// Write rows.
    Insert,
    /// Remove rows.
    Delete,
    /// Bring an object into being: a database, a table, a view, a column.
    Create,
    /// Remove one.
    Drop,
    /// Change the shape of an object that stays.
    Alter,
    /// Administer roles: `CREATE ROLE`, `DROP ROLE`, `GRANT`, `REVOKE`. Only ever held on
    /// [`Object::Server`].
    Roles,
    /// Operate the server. Guards routes rather than statements.
    Operate,
}

impl Privilege {
    /// Every privilege, in the order of their bits.
    pub const ALL: [Privilege; 8] = [
        Privilege::Select,
        Privilege::Insert,
        Privilege::Delete,
        Privilege::Create,
        Privilege::Drop,
        Privilege::Alter,
        Privilege::Roles,
        Privilege::Operate,
    ];

    /// The position of a privilege among [`Privilege::ALL`].
    pub open spec fn index(self) -> u32 {
        match self {
            Privilege::Select => 0,
            Privilege::Insert => 1,
            Privilege::Delete => 2,
            Privilege::Create => 3,
            Privilege::Drop => 4,
            Privilege::Alter => 5,
            Privilege::Roles => 6,
            Privilege::Operate => 7,
        }
    }

    /// The bit a privilege occupies in a stored mask.
    pub open spec fn mask(self) -> u32 {
        1u32 << self.index()
    }

    /// The name a `GRANT` spells a privilege with.
    pub open spec fn spelled(self) -> Seq<char> {
        match self {
            Privilege::Select => "SELECT"@,
            Privilege::Insert => "INSERT"@,
            Privilege::Delete => "DELETE"@,
            Privilege::Create => "CREATE"@,
            Privilege::Drop => "DROP"@,
            Privilege::Alter => "ALTER"@,
            Privilege::Roles => "ROLES"@,
            Privilege::Operate => "OPERATE"@,
        }
    }

    /// The bit this privilege occupies. A stored grant is these bits and nothing else.
    pub fn bit(self) -> (r: u32)
        ensures
            r == self.mask(),
    {
        let index: u32 = match self {
            Privilege::Select => 0,
            Privilege::Insert => 1,
            Privilege::Delete => 2,
            Privilege::Create => 3,
            Privilege::Drop => 4,
            Privilege::Alter => 5,
            Privilege::Roles => 6,
            Privilege::Operate => 7,
        };
        1u32 << index
    }

    /// The name a `GRANT` spells it with, and the one a refusal prints.
    pub fn as_str(self) -> (r: &'static str)
        ensures
            r@ == self.spelled(),
    {
        match self {
            Privilege::Select => "SELECT",
            Privilege::Insert => "INSERT",
            Privilege::Delete => "DELETE",
            Privilege::Create => "CREATE",
            Privilege::Drop => "DROP",
            Privilege::Alter => "ALTER",
            Privilege::Roles => "ROLES",
            Privilege::Operate => "OPERATE",
        }
    }

    /// The privilege a word names, in any case.
    pub open spec fn named(s: Seq<char>) -> Option<Privilege> {
        if exists|p: Privilege| crate::text::same_word(p.spelled(), s) {
            Some(choose|p: Privilege| crate::text::same_word(p.spelled(), s))
        } else {
            None
        }
    }

    /// Parses a privilege by the name a `GRANT` spells it with, in any case.
    pub fn parse(s: &str) -> (r: Option<Privilege>)
        ensures
            r == Privilege::named(s@),
            match r {
                Some(p) => crate::text::same_word(p.spelled(), s@),
                None => forall|p: Privilege| !crate::text::same_word(p.spelled(), s@),
            },
    {
        let mut i: usize = 0;
        while i < 8
            invariant
                i <= 8,
                forall|p: Privilege|
                    p.index() < i ==> !crate::text::same_word(#[trigger] p.spelled(), s@),
            decreases 8 - i,
        {
            let p: Privilege = Privilege::ALL[i];
            assert(p.index() == i);
            if p.as_str().eq_ignore_ascii_case(s) {
                proof {
                    let q = choose|q: Privilege| crate::text::same_word(q.spelled(), s@);
                    assert(crate::text::same_word(q.spelled(), s@));
                    privilege_names_are_distinct(p, q);
                }
                return Some(p);
            }
            assert forall|q: Privilege|
                q.index() < i + 1 implies !crate::text::same_word(#[trigger] q.spelled(), s@) by {
                if q.index() == i {
                    assert(q == p);
                }
            }
            i += 1;
        }
        None
    }

    /// Whether this privilege means anything at the level of a whole table.
    pub fn grantable_on_table(self) -> (r: bool)
        ensures
            r == self.on_table(),
    {
        match self {
            Privilege::Select | Privilege::Insert | Privilege::Delete | Privilege::Drop
            | Privilege::Alter => true,
            _ => false,
        }
    }

    /// Whether this privilege means anything at the level of a database.
    pub fn grantable_on_database(self) -> (r: bool)
        ensures
            r == self.on_database(),
    {
        match self {
            Privilege::Roles | Privilege::Operate => false,
            _ => true,
        }
    }

    /// Whether a `GRANT` may name this privilege at all.
    pub fn grantable_on_server(self) -> (r: bool)
        ensures
            r == self.on_server(),
    {
        match self {
            Privilege::Operate => false,
            _ => true,
        }
    }

    /// Whether this privilege may be granted on `object`.
    pub fn grantable_on(self, object: &Object) -> (r: bool)
        ensures
            r == self.on_object(object@),
    {
        match object {
            Object::Server => self.grantable_on_server(),
            Object::Database(_) => self.grantable_on_database(),
            Object::Table { .. } => self.grantable_on_table(),
        }
    }

    /// Creating a table that exists is nothing to be allowed, and roles and operation are the
    /// server's.
    pub open spec fn on_table(self) -> bool {
        !(self is Create || self is Roles || self is Operate)
    }

    /// Everything but what is the server's.
    pub open spec fn on_database(self) -> bool {
        !(self is Roles || self is Operate)
    }

    /// Everything some statement demands.
    pub open spec fn on_server(self) -> bool {
        !(self is Operate)
    }

    /// Which of the three levels decides.
    pub open spec fn on_object(self, object: ObjectView) -> bool {
        match object {
            ObjectView::Server => self.on_server(),
            ObjectView::Database(_) => self.on_database(),
            ObjectView::Table { .. } => self.on_table(),
        }
    }
}

/// Different privileges have different bits, and each bit is a power of two below 256.
pub proof fn privilege_bits_are_distinct(p: Privilege, q: Privilege)
    ensures
        p.mask() & q.mask() != 0 <==> p == q,
        p.mask() & 255u32 == p.mask(),
        p.mask() != 0,
{
    let i = p.index();
    let j = q.index();
    assert((1u32 << i) & (1u32 << j) != 0 <==> i == j) by (bit_vector)
        requires
            i < 8,
            j < 8,
    ;
    assert((1u32 << i) & 255u32 == (1u32 << i) && (1u32 << i) != 0) by (bit_vector)
        requires
            i < 8,
    ;
}

/// A privilege's own name, in any case, names it and no other.
pub proof fn privilege_names_are_distinct(p: Privilege, q: Privilege)
    ensures
        crate::text::same_word(p.spelled(), q.spelled()) <==> p == q,
{
    reveal_strlit("SELECT");
    reveal_strlit("INSERT");
    reveal_strlit("DELETE");
    reveal_strlit("CREATE");
    reveal_strlit("DROP");
    reveal_strlit("ALTER");
    reveal_strlit("ROLES");
    reveal_strlit("OPERATE");
    let a = crate::text::fold(p.spelled());
    let b = crate::text::fold(q.spelled());
    if p != q {
        if a == b {
            assert(a.len() == p.spelled().len());
            assert(b.len() == q.spelled().len());
            assert(a[0] == b[0]);
            assert(a[1] == b[1]);
            assert(a[2] == b[2]);
        }
    }
}

/// The privilege at a position among [`Privilege::ALL`].
pub open spec fn privilege_at(i: int) -> Privilege {
    if i == 0 {
        Privilege::Select
    } else if i == 1 {
        Privilege::Insert
    } else if i == 2 {
        Privilege::Delete
    } else if i == 3 {
        Privilege::Create
    } else if i == 4 {
        Privilege::Drop
    } else if i == 5 {
        Privilege::Alter
    } else if i == 6 {
        Privilege::Roles
    } else {
        Privilege::Operate
    }
}

/// The mask of those of the first `n` privileges that can be granted on an object.
pub open spec fn grantable_mask(object: ObjectView, n: int) -> u32
    decreases n,
{
    if n <= 0 {
        0
    } else if privilege_at(n - 1).on_object(object) {
        grantable_mask(object, n - 1) | privilege_at(n - 1).mask()
    } else {
        grantable_mask(object, n - 1)
    }
}

/// A set of privileges, as the word a catalog record carries.
///
/// Never masked to the bits that have a name: a bit from elsewhere is kept as it was read and
/// only disregarded where a decision is taken.
#[derive(Clone, Copy, PartialEq, Eq, Debug, Structural)]
pub struct Privileges(pub u32);

/// The mask of a list of privileges.
pub open spec fn mask_of(list: Seq<Privilege>) -> u32
    decreases list.len(),
{
    if list.len() == 0 {
        0
    } else {
        mask_of(list.drop_last()) | list.last().mask()
    }
}

/// A list's mask holds exactly the privileges that are in the list.
pub proof fn mask_holds_what_is_listed(list: Seq<Privilege>, p: Privilege)
    ensures
        Privileges(mask_of(list)).has(p) <==> list.contains(p),
        mask_of(list) & 255u32 == mask_of(list),
    decreases list.len(),
{
    if list.len() == 0 {
        let b = p.mask();
        assert(0u32 & b == 0) by (bit_vector);
        assert(0u32 & 255u32 == 0) by (bit_vector);
    } else {
        let rest = list.drop_last();
        let q = list.last();
        mask_holds_what_is_listed(rest, p);
        privilege_bits_are_distinct(p, q);
        privilege_bits_are_distinct(q, p);
        let (m, a, b) = (mask_of(rest), q.mask(), p.mask());
        assert((m | a) & b != 0 <==> (m & b != 0 || a & b != 0)) by (bit_vector);
        assert(m & 255u32 == m && a & 255u32 == a ==> (m | a) & 255u32 == (m | a)) by (bit_vector);
        if rest.contains(p) {
            let i = choose|i: int| 0 <= i < rest.len() && rest[i] == p;
            assert(list[i] == p);
        }
        if list.contains(p) && p != q {
            let i = choose|i: int| 0 <= i < list.len() && list[i] == p;
            assert(rest[i] == p);
        }
        if p == q {
            assert(list[list.len() - 1] == p);
        }
    }
}

/// The privileges of a set that have a name, in bit order.
pub open spec fn names_of(held: Privileges, upto: nat) -> Seq<Privilege>
    decreases upto,
{
    if upto == 0 {
        Seq::empty()
    } else {
        let rest = names_of(held, (upto - 1) as nat);
        let p = privilege_at(upto - 1);
        if held.has(p) {
            rest.push(p)
        } else {
            rest
        }
    }
}

impl Privileges {
    /// Whether the set holds a privilege.
    pub open spec fn has(self, p: Privilege) -> bool {
        self.0 & p.mask() != 0
    }

    /// Every privilege that has a name.
    pub fn known() -> (r: Privileges)
        ensures
            r.0 == 255,
            forall|p: Privilege| #[trigger] r.has(p),
    {
        let r = Privileges(255);
        proof {
            assert forall|p: Privilege| #[trigger] r.has(p) by {
                privilege_bits_are_distinct(p, p);
                let b = p.mask();
                assert(255u32 & b == b & 255u32) by (bit_vector);
            }
        }
        r
    }

    /// What `GRANT ALL` means on one object: everything grantable there, and nothing else.
    pub fn all_on(object: &Object) -> (r: Privileges)
        ensures
            r.0 == grantable_mask(object@, 8),
            forall|p: Privilege| #[trigger] r.has(p) <==> p.on_object(object@),
            r.0 & 255u32 == r.0,
    {
        let mut out: u32 = 0;
        let mut i: usize = 0;
        assert(0u32 & 255u32 == 0) by (bit_vector);
        proof {
            assert forall|p: Privilege| !#[trigger] Privileges(0).has(p) by {
                let b = p.mask();
                assert(0u32 & b == 0) by (bit_vector);
            }
        }
        while i < 8
            invariant
                i <= 8,
                out & 255u32 == out,
                out == grantable_mask(object@, i as int),
                forall|p: Privilege|
                    #[trigger] Privileges(out).has(p) <==> p.index() < i && p.on_object(object@),
            decreases 8 - i,
        {
            let q: Privilege = Privilege::ALL[i];
            assert(q.index() == i);
            assert(q == privilege_at(i as int));
            let before = out;
            if q.grantable_on(object) {
                out = out | q.bit();
            }
            proof {
                let a = q.mask();
                privilege_bits_are_distinct(q, q);
                assert(before & 255u32 == before && a & 255u32 == a ==> (before | a) & 255u32 == (
                before | a)) by (bit_vector);
                assert forall|p: Privilege|
                    #[trigger] Privileges(out).has(p) <==> p.index() < i + 1 && p.on_object(
                        object@,
                    ) by {
                    let b = p.mask();
                    assert((before | a) & b != 0 <==> (before & b != 0 || a & b != 0))
                        by (bit_vector);
                    privilege_bits_are_distinct(q, p);
                    assert(Privileges(before).has(p) <==> p.index() < i && p.on_object(object@));
                    assert(p.index() == i <==> p == q);
                }
            }
            i += 1;
        }
        Privileges(out)
    }

    /// A set from a list of privileges.
    pub fn from_iter(list: &[Privilege]) -> (r: Privileges)
        ensures
            r.0 == mask_of(list@),
            forall|p: Privilege| #[trigger] r.has(p) <==> list@.contains(p),
    {
        let mut out: u32 = 0;
        let mut i: usize = 0;
        while i < list.len()
            invariant
                i <= list.len(),
                out == mask_of(list@.take(i as int)),
            decreases list.len() - i,
        {
            assert(list@.take(i + 1).drop_last() =~= list@.take(i as int));
            out = out | list[i].bit();
            i += 1;
        }
        proof {
            assert(list@.take(i as int) =~= list@);
            assert forall|p: Privilege| #[trigger] Privileges(out).has(p) <==> list@.contains(
                p,
            ) by {
                mask_holds_what_is_listed(list@, p);
            }
        }
        Privileges(out)
    }

    pub fn empty() -> (r: Privileges)
        ensures
            r.0 == 0,
            forall|p: Privilege| !#[trigger] r.has(p),
    {
        proof {
            assert forall|p: Privilege| !#[trigger] Privileges(0).has(p) by {
                let b = p.mask();
                assert(0u32 & b == 0) by (bit_vector);
            }
        }
        Privileges(0)
    }

    pub fn is_empty(self) -> (r: bool)
        ensures
            r == (self.0 == 0),
    {
        self.0 == 0
    }

    pub fn contains(self, p: Privilege) -> (r: bool)
        ensures
            r == self.has(p),
    {
        self.0 & p.bit() != 0
    }

    #[must_use]
    pub fn with(self, p: Privilege) -> (r: Privileges)
        ensures
            r.0 == self.0 | p.mask(),
            forall|q: Privilege| #[trigger] r.has(q) <==> self.has(q) || q == p,
    {
        proof {
            let (m, a) = (self.0, p.mask());
            assert forall|q: Privilege| #[trigger] Privileges(m | a).has(q) <==> self.has(q) || q
                == p by {
                let b = q.mask();
                privilege_bits_are_distinct(p, q);
                assert((m | a) & b != 0 <==> (m & b != 0 || a & b != 0)) by (bit_vector);
            }
        }
        Privileges(self.0 | p.bit())
    }

    #[must_use]
    pub fn without(self, p: Privilege) -> (r: Privileges)
        ensures
            r.0 == self.0 & !p.mask(),
            forall|q: Privilege| #[trigger] r.has(q) <==> self.has(q) && q != p,
    {
        proof {
            let m = self.0;
            let i = p.index();
            assert forall|q: Privilege|
                #[trigger] Privileges(m & !p.mask()).has(q) <==> self.has(q) && q != p by {
                let j = q.index();
                assert((m & !(1u32 << i)) & (1u32 << j) != 0 <==> (m & (1u32 << j) != 0 && i != j))
                    by (bit_vector)
                    requires
                        i < 8,
                        j < 8,
                ;
                assert(i == j <==> p == q);
            }
        }
        Privileges(self.0 & !p.bit())
    }

    #[must_use]
    pub fn union(self, other: Privileges) -> (r: Privileges)
        ensures
            r.0 == self.0 | other.0,
            forall|q: Privilege| #[trigger] r.has(q) <==> self.has(q) || other.has(q),
    {
        proof {
            let (m, a) = (self.0, other.0);
            assert forall|q: Privilege| #[trigger] Privileges(m | a).has(q) <==> self.has(q)
                || other.has(q) by {
                let b = q.mask();
                assert((m | a) & b != 0 <==> (m & b != 0 || a & b != 0)) by (bit_vector);
            }
        }
        Privileges(self.0 | other.0)
    }

    #[must_use]
    pub fn minus(self, other: Privileges) -> (r: Privileges)
        ensures
            r.0 == self.0 & !other.0,
            forall|q: Privilege| #[trigger] r.has(q) <==> self.has(q) && !other.has(q),
    {
        proof {
            let (m, a) = (self.0, other.0);
            assert forall|q: Privilege| #[trigger] Privileges(m & !a).has(q) <==> self.has(q)
                && !other.has(q) by {
                let j = q.index();
                assert((m & !a) & (1u32 << j) != 0 <==> (m & (1u32 << j) != 0 && a & (1u32 << j)
                    == 0)) by (bit_vector)
                    requires
                        j < 8,
                ;
            }
        }
        Privileges(self.0 & !other.0)
    }

    /// The privileges in this set that have a name, in bit order.
    pub fn named(self) -> (r: Vec<Privilege>)
        ensures
            r@ == names_of(self, 8),
            forall|p: Privilege| #[trigger] r@.contains(p) <==> self.has(p),
    {
        let mut out: Vec<Privilege> = Vec::new();
        let mut i: usize = 0;
        while i < 8
            invariant
                i <= 8,
                out@ == names_of(self, i as nat),
                forall|p: Privilege|
                    #[trigger] out@.contains(p) <==> self.has(p) && p.index() < i,
            decreases 8 - i,
        {
            let p: Privilege = Privilege::ALL[i];
            assert(p == privilege_at(i as int) && p.index() == i);
            let ghost before = out@;
            if self.contains(p) {
                out.push(p);
            }
            proof {
                assert forall|q: Privilege|
                    #[trigger] out@.contains(q) <==> self.has(q) && q.index() < i + 1 by {
                    assert(before.contains(q) <==> self.has(q) && q.index() < i);
                    assert(q.index() == i <==> q == p);
                    if self.has(p) {
                        assert(out@ == before.push(p));
                        assert(out@[before.len() as int] == p);
                        if before.contains(q) {
                            let k = choose|k: int| 0 <= k < before.len() && before[k] == q;
                            assert(out@[k] == q);
                        }
                        if out@.contains(q) && q != p {
                            let k = choose|k: int| 0 <= k < out@.len() && out@[k] == q;
                            assert(before[k] == q);
                        }
                    }
                }
            }
            i += 1;
        }
        out
    }
}

impl Default for Privileges {
    fn default() -> (r: Privileges)
        ensures
            r.0 == 0,
    {
        Privileges(0)
    }
}

/// What an object is, by name.
pub enum ObjectView {
    Server,
    Database(Seq<char>),
    Table { database: Seq<char>, table: Seq<char> },
}

/// What a grant or a demand is about, owned.
#[derive(Clone, PartialEq, Eq, Debug)]
pub enum Object {
    /// The server itself: what `ON *.*` names.
    Server,
    /// Every table in one database: `ON db.*`.
    Database(String),
    /// One table: `ON db.tbl`.
    Table { database: String, table: String },
}

impl View for Object {
    type V = ObjectView;

    open spec fn view(&self) -> ObjectView {
        match self {
            Object::Server => ObjectView::Server,
            Object::Database(d) => ObjectView::Database(d@),
            Object::Table { database, table } => ObjectView::Table {
                database: database@,
                table: table@,
            },
        }
    }
}

/// [`Object`] as a statement produces it, borrowing the statement's own names.
#[derive(Clone, Copy, PartialEq, Eq, Debug)]
pub enum ObjectRef<'a> {
    Server,
    Database(&'a str),
    Table { database: &'a str, table: &'a str },
}

impl<'a> View for ObjectRef<'a> {
    type V = ObjectView;

    open spec fn view(&self) -> ObjectView {
        match self {
            ObjectRef::Server => ObjectView::Server,
            ObjectRef::Database(d) => ObjectView::Database(d@),
            ObjectRef::Table { database, table } => ObjectView::Table {
                database: database@,
                table: table@,
            },
        }
    }
}

impl<'a> ObjectRef<'a> {
    pub fn to_owned(self) -> (r: Object)
        ensures
            r@ == self@,
    {
        match self {
            ObjectRef::Server => Object::Server,
            ObjectRef::Database(d) => Object::Database(str::to_owned(d)),
            ObjectRef::Table { database, table } => Object::Table {
                database: str::to_owned(database),
                table: str::to_owned(table),
            },
        }
    }

    /// The database this object is in, if it is in one.
    pub fn database(self) -> (r: Option<&'a str>)
        ensures
            match self@ {
                ObjectView::Server => r is None,
                ObjectView::Database(d) => r is Some && r->0@ == d,
                ObjectView::Table { database, .. } => r is Some && r->0@ == database,
            },
    {
        match self {
            ObjectRef::Server => None,
            ObjectRef::Database(d) => Some(d),
            ObjectRef::Table { database, .. } => Some(database),
        }
    }

    /// Whether two objects are the same one.
    pub fn is(self, other: ObjectRef<'_>) -> (r: bool)
        ensures
            r == (self@ == other@),
    {
        match (self, other) {
            (ObjectRef::Server, ObjectRef::Server) => true,
            (ObjectRef::Database(a), ObjectRef::Database(b)) => same(a, b),
            (
                ObjectRef::Table { database: a, table: s },
                ObjectRef::Table { database: b, table: t },
            ) => same(a, b) && same(s, t),
            _ => false,
        }
    }
}

/// What a demand asks, by name.
pub struct DemandView {
    pub privilege: Privilege,
    pub on: ObjectView,
}

/// One privilege on one object, which is the unit a statement asks in.
#[derive(Clone, Copy, PartialEq, Eq, Debug)]
pub struct Demand<'a> {
    pub privilege: Privilege,
    pub on: ObjectRef<'a>,
}

impl<'a> View for Demand<'a> {
    type V = DemandView;

    open spec fn view(&self) -> DemandView {
        DemandView { privilege: self.privilege, on: self.on@ }
    }
}

impl<'a> Demand<'a> {
    pub fn new(privilege: Privilege, on: ObjectRef<'a>) -> (r: Demand<'a>)
        ensures
            r@ == (DemandView { privilege, on: on@ }),
    {
        Demand { privilege, on }
    }

    pub fn server(privilege: Privilege) -> (r: Demand<'a>)
        ensures
            r@ == (DemandView { privilege, on: ObjectView::Server }),
    {
        Demand { privilege, on: ObjectRef::Server }
    }

    pub fn database(privilege: Privilege, database: &'a str) -> (r: Demand<'a>)
        ensures
            r@ == (DemandView { privilege, on: ObjectView::Database(database@) }),
    {
        Demand { privilege, on: ObjectRef::Database(database) }
    }

    pub fn table(privilege: Privilege, database: &'a str, table: &'a str) -> (r: Demand<'a>)
        ensures
            r@ == (DemandView {
                privilege,
                on: ObjectView::Table { database: database@, table: table@ },
            }),
    {
        Demand { privilege, on: ObjectRef::Table { database, table } }
    }

    /// Whether two demands ask the same thing.
    pub fn is(self, other: Demand<'_>) -> (r: bool)
        ensures
            r == (self@ == other@),
    {
        self.privilege == other.privilege && self.on.is(other.on)
    }
}

/// A role, as it is listed.
#[derive(Clone, PartialEq, Eq, PartialOrd, Ord, Debug)]
pub struct RoleDef {
    pub id: RoleId,
    pub name: String,
}

/// Which role, on which object. The key a stored grant is filed under.
///
/// Ids rather than names, so a grant vanishes with the object it is about: ids are never
/// reissued.
#[derive(Clone, Copy, PartialEq, Eq, PartialOrd, Ord, Debug, Structural)]
pub struct GrantKey {
    pub role: RoleId,
    pub database: DatabaseId,
    pub table: TableId,
}

impl View for GrantKey {
    type V = GrantKey;

    open spec fn view(&self) -> GrantKey {
        *self
    }
}

impl Key for GrantKey {
    open spec fn before(a: GrantKey, b: GrantKey) -> bool {
        a.role < b.role || (a.role == b.role && (a.database < b.database || (a.database
            == b.database && a.table < b.table)))
    }

    proof fn irreflexive(a: GrantKey) {
    }

    proof fn transitive(a: GrantKey, b: GrantKey, c: GrantKey) {
    }

    proof fn total(a: GrantKey, b: GrantKey) {
    }

    fn is_before(&self, other: &GrantKey) -> (r: bool) {
        self.role < other.role || (self.role == other.role && (self.database < other.database || (
        self.database == other.database && self.table < other.table)))
    }
}

impl GrantKey {
    /// The key for `ON *.*`.
    pub fn server(role: RoleId) -> (r: GrantKey)
        ensures
            r == server_key(role),
    {
        GrantKey { role, database: ANY_DATABASE, table: ANY_TABLE }
    }

    /// The key for `ON db.*`.
    pub fn database(role: RoleId, database: DatabaseId) -> (r: GrantKey)
        ensures
            r == database_key(role, database),
    {
        GrantKey { role, database, table: ANY_TABLE }
    }

    /// The key for `ON db.tbl`.
    pub fn table(role: RoleId, database: DatabaseId, table: TableId) -> (r: GrantKey)
        ensures
            r == table_key(role, database, table),
    {
        GrantKey { role, database, table }
    }
}

pub open spec fn server_key(role: RoleId) -> GrantKey {
    GrantKey { role, database: ANY_DATABASE, table: ANY_TABLE }
}

pub open spec fn database_key(role: RoleId, database: DatabaseId) -> GrantKey {
    GrantKey { role, database, table: ANY_TABLE }
}

pub open spec fn table_key(role: RoleId, database: DatabaseId, table: TableId) -> GrantKey {
    GrantKey { role, database, table }
}

/// Why a change to the store was refused.
#[derive(Clone, PartialEq, Eq, Debug)]
pub enum RbacError {
    /// A name no role has.
    UnknownRole(String),
    /// [`SUPERUSER`], which cannot be made, dropped, or granted to.
    ReservedRole(String),
    TooManyRoles { max: usize },
    TooManyGrants { max: usize },
    /// A role id allocator that reached the end of its range.
    RoleIdsExhausted,
}

impl RbacError {
    /// The stable string a client matches on.
    pub open spec fn code_text(&self) -> Seq<char> {
        match self {
            RbacError::UnknownRole(_) => "unknown_role"@,
            RbacError::ReservedRole(_) => "reserved_role"@,
            RbacError::TooManyRoles { .. } => "too_many_roles"@,
            RbacError::TooManyGrants { .. } => "too_many_grants"@,
            RbacError::RoleIdsExhausted => "role_ids_exhausted"@,
        }
    }

    /// The sentence a person reads.
    pub open spec fn sentence(&self) -> Seq<char> {
        match self {
            RbacError::UnknownRole(n) => "there is no role `"@ + n@
                + "`; roles are made with `CREATE ROLE`, and a person is given one by the third column of the server's users file - `GRANT ... TO` never names a person"@,
            RbacError::ReservedRole(n) => "`"@ + n@
                + "` is the reserved role that holds everything; it exists without being created and cannot be changed, because it is what an empty catalog is recovered through"@,
            RbacError::TooManyRoles { max } => "a catalog holds at most "@ + crate::text::dec(
                *max as nat,
            ) + " roles"@,
            RbacError::TooManyGrants { max } => "a catalog holds at most "@ + crate::text::dec(
                *max as nat,
            )
                + " grants; grant on a whole database rather than on each table in it"@,
            RbacError::RoleIdsExhausted => "no role id is left to hand out"@,
        }
    }

    /// The stable string a client matches on.
    pub fn code(&self) -> (r: &'static str)
        ensures
            r@ == self.code_text(),
    {
        match self {
            RbacError::UnknownRole(_) => "unknown_role",
            RbacError::ReservedRole(_) => "reserved_role",
            RbacError::TooManyRoles { .. } => "too_many_roles",
            RbacError::TooManyGrants { .. } => "too_many_grants",
            RbacError::RoleIdsExhausted => "role_ids_exhausted",
        }
    }

    /// The sentence a person reads.
    pub fn message(&self) -> (r: String)
        ensures
            r@ == self.sentence(),
    {
        let mut out = String::new();
        match self {
            RbacError::UnknownRole(n) => {
                out.append("there is no role `");
                out.append(n.as_str());
                out.append(
                    "`; roles are made with `CREATE ROLE`, and a person is given one by the third column of the server's users file - `GRANT ... TO` never names a person",
                );
            },
            RbacError::ReservedRole(n) => {
                out.append("`");
                out.append(n.as_str());
                out.append(
                    "` is the reserved role that holds everything; it exists without being created and cannot be changed, because it is what an empty catalog is recovered through",
                );
            },
            RbacError::TooManyRoles { max } => {
                out.append("a catalog holds at most ");
                push_dec(&mut out, *max as u128);
                out.append(" roles");
            },
            RbacError::TooManyGrants { max } => {
                out.append("a catalog holds at most ");
                push_dec(&mut out, *max as u128);
                out.append(" grants; grant on a whole database rather than on each table in it");
            },
            RbacError::RoleIdsExhausted => {
                out.append("no role id is left to hand out");
            },
        }
        assert(out@ =~= self.sentence());
        out
    }
}

/// A refused decision: what was needed, and who did not have it.
#[derive(Clone, PartialEq, Eq, Debug)]
pub struct Denied {
    /// The role that was refused. `None` when the caller held no role at all.
    pub role: Option<String>,
    pub privilege: Privilege,
    pub on: Object,
}

impl Denied {
    /// How the refused object is written.
    pub open spec fn place(&self) -> Seq<char> {
        match self.on {
            Object::Server => "the server"@,
            Object::Database(d) => "`"@ + d@ + "`"@,
            Object::Table { database, table } => "`"@ + database@ + "."@ + table@ + "`"@,
        }
    }

    /// The sentence a person reads.
    pub open spec fn sentence(&self) -> Seq<char> {
        match self.role {
            Some(role) => "role `"@ + role@ + "` does not hold "@ + self.privilege.spelled()
                + " on "@ + self.place(),
            None => "no role holds "@ + self.privilege.spelled() + " on "@ + self.place()
                + ": this credential names a role the catalog does not have, which is every privilege withheld rather than any granted"@,
        }
    }

    /// The sentence a person reads.
    pub fn message(&self) -> (r: String)
        ensures
            r@ == self.sentence(),
    {
        let mut out = String::new();
        match &self.role {
            Some(role) => {
                out.append("role `");
                out.append(role.as_str());
                out.append("` does not hold ");
            },
            None => {
                out.append("no role holds ");
            },
        }
        out.append(self.privilege.as_str());
        out.append(" on ");
        let ghost head = out@;
        match &self.on {
            Object::Server => {
                out.append("the server");
            },
            Object::Database(d) => {
                out.append("`");
                out.append(d.as_str());
                out.append("`");
            },
            Object::Table { database, table } => {
                out.append("`");
                out.append(database.as_str());
                out.append(".");
                out.append(table.as_str());
                out.append("`");
            },
        }
        assert(out@ =~= head + self.place());
        if self.role.is_none() {
            out.append(
                ": this credential names a role the catalog does not have, which is every privilege withheld rather than any granted",
            );
        }
        assert(out@ =~= self.sentence());
        out
    }
}

/// Who is asking.
#[derive(Clone, PartialEq, Eq, Debug)]
pub enum Who {
    /// The check is somebody else's, already done, or not wanted. Allows everything.
    Trusted,
    /// A person holding a role by name.
    Role(String),
}

impl Who {
    /// Whether this is the reserved role.
    pub fn is_superuser(&self) -> (r: bool)
        ensures
            r == (self matches Who::Role(name) && name@ == SUPERUSER@),
    {
        match self {
            Who::Trusted => false,
            Who::Role(name) => same(name.as_str(), SUPERUSER),
        }
    }
}

/// Every role, and what each has been granted.
#[derive(Clone, Debug)]
pub struct Grants {
    roles: Sorted<RoleId, String>,
    role_ids: Sorted<String, RoleId>,
    grants: Sorted<GrantKey, u32>,
    next_role: RoleId,
}

/// What a store of grants holds.
#[verifier::ext_equal]
pub struct GrantsView {
    /// Role names by id.
    pub roles: Map<RoleId, Seq<char>>,
    /// Role ids by name.
    pub ids: Map<Seq<char>, RoleId>,
    /// The raw mask per role and object.
    pub grants: Map<GrantKey, u32>,
    /// The next id to hand out.
    pub next: RoleId,
}

impl GrantsView {
    /// The reserved role is nowhere in the store, and no stored grant is empty.
    pub open spec fn sound(self) -> bool {
        &&& !self.ids.dom().contains(SUPERUSER@)
        &&& forall|id: RoleId| #[trigger] self.roles.dom().contains(id) ==> self.roles[id] != SUPERUSER@
        &&& forall|k: GrantKey| #[trigger] self.grants.dom().contains(k) ==> self.grants[k] != 0
    }

    /// Every id in the store lies below the counter, which is what makes the next one fresh.
    pub open spec fn settled(self) -> bool {
        &&& forall|id: RoleId| #[trigger] self.roles.dom().contains(id) ==> id < self.next
        &&& forall|n: Seq<char>| #[trigger] self.ids.dom().contains(n) ==> self.ids[n] < self.next
        &&& forall|k: GrantKey| #[trigger] self.grants.dom().contains(k) ==> k.role < self.next
    }

    /// The mask stored for exactly this key.
    pub open spec fn raw(self, key: GrantKey) -> u32 {
        if self.grants.dom().contains(key) {
            self.grants[key]
        } else {
            0
        }
    }

    /// What a role holds on an object: the union of the keys that cover it, narrowed to the
    /// privileges that have a name.
    pub open spec fn held(self, role: RoleId, database: DatabaseId, table: TableId) -> u32 {
        (if database == ANY_DATABASE {
            self.raw(server_key(role))
        } else if table == ANY_TABLE {
            self.raw(server_key(role)) | self.raw(database_key(role, database))
        } else {
            self.raw(server_key(role)) | self.raw(database_key(role, database)) | self.raw(
                table_key(role, database, table),
            )
        }) & 255u32
    }

    /// The store with one role's mask on one object set to exactly `mask`.
    pub open spec fn setting(self, key: GrantKey, mask: u32) -> GrantsView {
        GrantsView {
            grants: if mask == 0 {
                self.grants.remove(key)
            } else {
                self.grants.insert(key, mask)
            },
            ..self
        }
    }

    /// The store with every grant of some kind forgotten.
    pub open spec fn keeping(self, keep: spec_fn(GrantKey) -> bool) -> GrantsView {
        GrantsView {
            grants: self.grants.restrict(Set::new(|k: GrantKey| self.grants.dom().contains(k) && keep(k))),
            ..self
        }
    }
}

/// Which grants go.
#[derive(Clone, Copy)]
enum Going {
    Role(RoleId),
    Table(TableId),
    Database(DatabaseId),
}

impl Going {
    spec fn covers(self, k: GrantKey) -> bool {
        match self {
            Going::Role(r) => k.role == r,
            Going::Table(t) => k.table == t,
            Going::Database(d) => k.database == d,
        }
    }
}

impl View for Grants {
    type V = GrantsView;

    closed spec fn view(&self) -> GrantsView {
        GrantsView {
            roles: self.roles@.map_values(|s: String| s@),
            ids: self.role_ids@,
            grants: self.grants@,
            next: self.next_role,
        }
    }
}

impl Default for Grants {
    fn default() -> (r: Grants)
        ensures
            r.wf(),
            r@ == empty_store(),
    {
        Grants::new()
    }
}

/// A store with nothing in it.
pub open spec fn empty_store() -> GrantsView {
    GrantsView { roles: Map::empty(), ids: Map::empty(), grants: Map::empty(), next: 0 }
}

impl Grants {
    /// The lists behind the store are in key order.
    pub closed spec fn in_order(&self) -> bool {
        &&& self.roles.wf()
        &&& self.role_ids.wf()
        &&& self.grants.wf()
    }

    pub open spec fn wf(&self) -> bool {
        self.in_order() && self@.sound()
    }

    pub fn new() -> (r: Grants)
        ensures
            r.wf(),
            r@ == empty_store(),
    {
        let r = Grants {
            roles: Sorted::new(),
            role_ids: Sorted::new(),
            grants: Sorted::new(),
            next_role: 0,
        };
        assert(r@ =~= empty_store());
        r
    }

    /// The id of a role by name. The reserved role is never found: it is not a row.
    pub fn role(&self, name: &str) -> (r: Option<RoleId>)
        requires
            self.wf(),
        ensures
            r == (if self@.ids.dom().contains(name@) { Some(self@.ids[name@]) } else { None }),
            name@ == SUPERUSER@ ==> r is None,
    {
        let key = str::to_owned(name);
        match self.role_ids.get(&key) {
            Some(id) => Some(*id),
            None => None,
        }
    }

    pub fn role_name(&self, id: RoleId) -> (r: Option<&str>)
        requires
            self.wf(),
        ensures
            r is Some <==> self@.roles.dom().contains(id),
            r is Some ==> r->0@ == self@.roles[id],
    {
        match self.roles.get(&id) {
            Some(name) => Some(name.as_str()),
            None => None,
        }
    }

    pub fn role_count(&self) -> (n: usize)
        requires
            self.wf(),
        ensures
            n == self@.roles.dom().len(),
    {
        assert(self@.roles.dom() =~= self.roles@.dom());
        self.roles.len()
    }

    pub fn grant_count(&self) -> (n: usize)
        requires
            self.wf(),
        ensures
            n == self@.grants.dom().len(),
    {
        self.grants.len()
    }

    /// Every role, in name order.
    pub fn roles(&self) -> (r: Vec<RoleDef>)
        requires
            self.wf(),
        ensures
            r@.len() == self@.ids.dom().len(),
            forall|i: int|
                0 <= i < r@.len() ==> self@.ids.dom().contains((#[trigger] r@[i]).name@)
                    && self@.ids[r@[i].name@] == r@[i].id,
            forall|i: int, j: int|
                #![trigger r@[i], r@[j]]
                0 <= i < j < r@.len() ==> String::before(r@[i].name@, r@[j].name@),
    {
        let mut out: Vec<RoleDef> = Vec::new();
        let n = self.role_ids.len();
        let mut i: usize = 0;
        while i < n
            invariant
                i <= n,
                n == self.role_ids.listed().len(),
                out@.len() == i,
                forall|j: int|
                    0 <= j < i ==> (#[trigger] out@[j]).name@ == self.role_ids.listed()[j].0@
                        && out@[j].id == self.role_ids.listed()[j].1,
            decreases n - i,
        {
            let e = self.role_ids.entry(i);
            out.push(RoleDef { id: e.1, name: e.0.clone() });
            i += 1;
        }
        proof {
            assert forall|i: int| 0 <= i < out@.len() implies self@.ids.dom().contains(
                (#[trigger] out@[i]).name@,
            ) && self@.ids[out@[i].name@] == out@[i].id by {
                self.role_ids.lemma_entry(i);
            }
        }
        out
    }

    /// Makes a role, returning the existing id if it is already there.
    pub fn intern_role(&mut self, name: &str) -> (r: Result<RoleId, RbacError>)
        requires
            old(self).wf(),
        ensures
            final(self).wf(),
            match r {
                Ok(id) => name@ != SUPERUSER@ && if old(self)@.ids.dom().contains(name@) {
                    id == old(self)@.ids[name@] && final(self)@ == old(self)@
                } else {
                    &&& old(self)@.roles.dom().len() < MAX_ROLES
                    &&& old(self)@.next < u32::MAX
                    &&& id == old(self)@.next
                    &&& final(self)@ == (GrantsView {
                        roles: old(self)@.roles.insert(id, name@),
                        ids: old(self)@.ids.insert(name@, id),
                        grants: old(self)@.grants,
                        next: (id + 1) as u32,
                    })
                },
                Err(RbacError::ReservedRole(n)) => {
                    name@ == SUPERUSER@ && n@ == name@ && final(self)@ == old(self)@
                },
                Err(RbacError::TooManyRoles { max }) => {
                    &&& name@ != SUPERUSER@ && !old(self)@.ids.dom().contains(name@)
                    &&& old(self)@.roles.dom().len() >= MAX_ROLES && max == MAX_ROLES
                    &&& final(self)@ == old(self)@
                },
                Err(RbacError::RoleIdsExhausted) => {
                    &&& name@ != SUPERUSER@ && !old(self)@.ids.dom().contains(name@)
                    &&& old(self)@.roles.dom().len() < MAX_ROLES
                    &&& old(self)@.next == u32::MAX
                    &&& final(self)@ == old(self)@
                },
                Err(_) => false,
            },
    {
        if same(name, SUPERUSER) {
            return Err(RbacError::ReservedRole(str::to_owned(name)));
        }
        if let Some(id) = self.role(name) {
            return Ok(id);
        }
        if self.role_count() >= MAX_ROLES {
            return Err(RbacError::TooManyRoles { max: MAX_ROLES });
        }
        let id = self.next_role;
        if id == u32::MAX {
            return Err(RbacError::RoleIdsExhausted);
        }
        let ghost before = self@;
        self.next_role = self.next_role + 1;
        self.roles.insert(id, str::to_owned(name));
        self.role_ids.insert(str::to_owned(name), id);
        proof {
            assert(self@.roles =~= before.roles.insert(id, name@));
            assert forall|i: RoleId| #[trigger] self@.roles.dom().contains(i) implies self@.roles[i]
                != SUPERUSER@ by {
                if i != id {
                    assert(before.roles.dom().contains(i));
                }
            }
            assert(self@.ids == before.ids.insert(name@, id));
            assert(!self@.ids.dom().contains(SUPERUSER@));
            assert(self@.grants == before.grants);
            assert(self@.sound());
        }
        Ok(id)
    }

    /// Drops every grant of one kind.
    fn forget(&mut self, going: Going)
        requires
            old(self).wf(),
        ensures
            final(self).wf(),
            final(self)@ == old(self)@.keeping(|k: GrantKey| !going.covers(k)),
            final(self).roles == old(self).roles,
            final(self).role_ids == old(self).role_ids,
            final(self).next_role == old(self).next_role,
    {
        let ghost was = *self;
        let mut i: usize = 0;
        while i < self.grants.len()
            invariant
                was.wf(),
                self.grants.wf(),
                self.roles == was.roles,
                self.role_ids == was.role_ids,
                self.next_role == was.next_role,
                i <= self.grants.listed().len(),
                forall|k: GrantKey|
                    #[trigger] self.grants@.dom().contains(k) ==> was.grants@.dom().contains(k)
                        && self.grants@[k] == was.grants@[k],
                forall|k: GrantKey|
                    #[trigger] was.grants@.dom().contains(k) && !self.grants@.dom().contains(k)
                        ==> going.covers(k),
                forall|j: int| 0 <= j < i ==> !going.covers((#[trigger] self.grants.listed()[j]).0),
            decreases self.grants.listed().len() - i,
        {
            let key = self.grants.entry(i).0;
            let gone = match going {
                Going::Role(r) => key.role == r,
                Going::Table(t) => key.table == t,
                Going::Database(d) => key.database == d,
            };
            if gone {
                self.grants.remove_at(i);
            } else {
                i += 1;
            }
        }
        proof {
            let want = was@.keeping(|k: GrantKey| !going.covers(k));
            assert forall|k: GrantKey| self.grants@.dom().contains(k) <==> want.grants.dom().contains(
                k,
            ) by {
                if self.grants@.dom().contains(k) {
                    let j = choose|j: int|
                        0 <= j < self.grants.listed().len() && (#[trigger] self.grants.listed()[j]).0@
                            == k;
                    assert(!going.covers(self.grants.listed()[j].0));
                }
            }
            assert(self.grants@ =~= want.grants);
            assert(self@ =~= want);
        }
    }

    /// Removes a role and every grant it held. `false` means there was no such role.
    pub fn drop_role(&mut self, name: &str) -> (r: Result<bool, RbacError>)
        requires
            old(self).wf(),
        ensures
            final(self).wf(),
            match r {
                Ok(true) => {
                    &&& name@ != SUPERUSER@
                    &&& old(self)@.ids.dom().contains(name@)
                    &&& final(self)@ == (GrantsView {
                        ids: old(self)@.ids.remove(name@),
                        roles: old(self)@.roles.remove(old(self)@.ids[name@]),
                        ..old(self)@.keeping(|k: GrantKey| k.role != old(self)@.ids[name@])
                    })
                },
                Ok(false) => {
                    &&& name@ != SUPERUSER@
                    &&& !old(self)@.ids.dom().contains(name@)
                    &&& final(self)@ == old(self)@
                },
                Err(RbacError::ReservedRole(n)) => {
                    name@ == SUPERUSER@ && n@ == name@ && final(self)@ == old(self)@
                },
                Err(_) => false,
            },
    {
        if same(name, SUPERUSER) {
            return Err(RbacError::ReservedRole(str::to_owned(name)));
        }
        let ghost was = self@;
        let id = match self.role(name) {
            None => {
                return Ok(false);
            },
            Some(id) => id,
        };
        let key = str::to_owned(name);
        let _found = self.role_ids.remove(&key);
        let _held = self.roles.remove(&id);
        assert(self@.roles =~= was.roles.remove(id));
        assert(self@.sound());
        let ghost mid = self@;
        self.forget(Going::Role(id));
        proof {
            assert(mid.keeping(|k: GrantKey| !Going::Role(id).covers(k)).grants =~= was.keeping(
                |k: GrantKey| k.role != id,
            ).grants);
        }
        Ok(true)
    }

    /// Sets one role's privileges on one object to exactly `privileges`.
    ///
    /// Absolute, not a delta. An empty mask removes the record.
    pub fn set(&mut self, key: GrantKey, privileges: Privileges) -> (r: Result<(), RbacError>)
        requires
            old(self).wf(),
        ensures
            final(self).wf(),
            match r {
                Ok(_) => {
                    &&& (privileges.0 == 0 || old(self)@.grants.dom().contains(key) || old(
                        self,
                    )@.grants.dom().len() < MAX_GRANTS)
                    &&& final(self)@ == old(self)@.setting(key, privileges.0)
                },
                Err(RbacError::TooManyGrants { max }) => {
                    &&& privileges.0 != 0 && !old(self)@.grants.dom().contains(key)
                    &&& old(self)@.grants.dom().len() >= MAX_GRANTS && max == MAX_GRANTS
                    &&& final(self)@ == old(self)@
                },
                Err(_) => false,
            },
    {
        let ghost was = self@;
        if privileges.is_empty() {
            let _found = self.grants.remove(&key);
            assert(self@ =~= was.setting(key, 0));
            return Ok(());
        }
        if self.grants.get(&key).is_none() && self.grants.len() >= MAX_GRANTS {
            return Err(RbacError::TooManyGrants { max: MAX_GRANTS });
        }
        self.grants.insert(key, privileges.0);
        assert(self@ =~= was.setting(key, privileges.0));
        Ok(())
    }

    /// The raw mask stored for exactly this object, with no widening applied.
    pub fn get(&self, key: GrantKey) -> (r: Privileges)
        requires
            self.wf(),
        ensures
            r.0 == self@.raw(key),
    {
        match self.grants.get(&key) {
            Some(mask) => Privileges(*mask),
            None => Privileges(0),
        }
    }

    /// Every grant a role holds, in object order.
    pub fn of(&self, role: RoleId) -> (r: Vec<(GrantKey, Privileges)>)
        requires
            self.wf(),
        ensures
            forall|i: int|
                0 <= i < r@.len() ==> (#[trigger] r@[i]).0.role == role
                    && self@.grants.dom().contains(r@[i].0) && self@.grants[r@[i].0] == r@[i].1.0,
            forall|k: GrantKey|
                k.role == role && #[trigger] self@.grants.dom().contains(k) ==> exists|i: int|
                    0 <= i < r@.len() && (#[trigger] r@[i]).0 == k,
            forall|i: int, j: int|
                #![trigger r@[i], r@[j]]
                0 <= i < j < r@.len() ==> GrantKey::before(r@[i].0, r@[j].0),
    {
        let mut out: Vec<(GrantKey, Privileges)> = Vec::new();
        let mut i: usize = 0;
        while i < self.grants.len()
            invariant
                self.wf(),
                i <= self.grants.listed().len(),
                forall|j: int|
                    0 <= j < out@.len() ==> (#[trigger] out@[j]).0.role == role
                        && self@.grants.dom().contains(out@[j].0) && self@.grants[out@[j].0]
                        == out@[j].1.0,
                forall|j: int, k: int|
                    #![trigger out@[j], self.grants.listed()[k]]
                    0 <= j < out@.len() && i <= k < self.grants.listed().len() ==> GrantKey::before(
                        out@[j].0,
                        self.grants.listed()[k].0,
                    ),
                forall|k: int|
                    0 <= k < i && (#[trigger] self.grants.listed()[k]).0.role == role ==> exists|
                        j: int,
                    |
                        0 <= j < out@.len() && (#[trigger] out@[j]).0 == self.grants.listed()[k].0,
                forall|j: int, k: int|
                    #![trigger out@[j], out@[k]]
                    0 <= j < k < out@.len() ==> GrantKey::before(out@[j].0, out@[k].0),
            decreases self.grants.listed().len() - i,
        {
            let e = self.grants.entry(i);
            let ghost before = out@;
            proof {
                self.grants.lemma_entry(i as int);
            }
            if e.0.role == role {
                out.push((e.0, Privileges(e.1)));
                proof {
                    assert forall|k: int|
                        0 <= k < i + 1 && (#[trigger] self.grants.listed()[k]).0.role
                            == role implies exists|j: int|
                        0 <= j < out@.len() && (#[trigger] out@[j]).0 == self.grants.listed()[k].0 by {
                        if k < i {
                            let j = choose|j: int|
                                0 <= j < before.len() && (#[trigger] before[j]).0
                                    == self.grants.listed()[k].0;
                            assert(out@[j] == before[j]);
                        } else {
                            assert(out@[before.len() as int].0 == self.grants.listed()[k].0);
                        }
                    }
                }
            }
            i += 1;
        }
        proof {
            assert forall|k: GrantKey|
                k.role == role && #[trigger] self@.grants.dom().contains(k) implies exists|i: int|
                0 <= i < out@.len() && (#[trigger] out@[i]).0 == k by {
                let m = choose|m: int|
                    0 <= m < self.grants.listed().len() && (#[trigger] self.grants.listed()[m]).0@
                        == k;
                assert(self.grants.listed()[m].0.role == role);
            }
        }
        out
    }

    /// Every grant, in key order.
    pub fn all(&self) -> (r: Vec<(GrantKey, Privileges)>)
        requires
            self.wf(),
        ensures
            r@.len() == self@.grants.dom().len(),
            forall|i: int|
                0 <= i < r@.len() ==> self@.grants.dom().contains((#[trigger] r@[i]).0)
                    && self@.grants[r@[i].0] == r@[i].1.0,
            forall|i: int, j: int|
                #![trigger r@[i], r@[j]]
                0 <= i < j < r@.len() ==> GrantKey::before(r@[i].0, r@[j].0),
    {
        let mut out: Vec<(GrantKey, Privileges)> = Vec::new();
        let n = self.grants.len();
        let mut i: usize = 0;
        while i < n
            invariant
                i <= n,
                n == self.grants.listed().len(),
                out@.len() == i,
                forall|j: int|
                    0 <= j < i ==> (#[trigger] out@[j]).0 == self.grants.listed()[j].0
                        && out@[j].1.0 == self.grants.listed()[j].1,
            decreases n - i,
        {
            let e = self.grants.entry(i);
            out.push((e.0, Privileges(e.1)));
            i += 1;
        }
        proof {
            assert forall|i: int| 0 <= i < out@.len() implies self@.grants.dom().contains(
                (#[trigger] out@[i]).0,
            ) && self@.grants[out@[i].0] == out@[i].1.0 by {
                self.grants.lemma_entry(i);
            }
        }
        out
    }

    /// Every role as an id and a name, in id order.
    pub fn all_roles(&self) -> (r: Vec<(RoleId, &str)>)
        requires
            self.wf(),
        ensures
            r@.len() == self@.roles.dom().len(),
            forall|i: int|
                0 <= i < r@.len() ==> self@.roles.dom().contains((#[trigger] r@[i]).0)
                    && self@.roles[r@[i].0] == r@[i].1@,
            forall|i: int, j: int|
                #![trigger r@[i], r@[j]]
                0 <= i < j < r@.len() ==> r@[i].0 < r@[j].0,
    {
        let mut out: Vec<(RoleId, &str)> = Vec::new();
        let n = self.roles.len();
        let mut i: usize = 0;
        while i < n
            invariant
                i <= n,
                n == self.roles.listed().len(),
                out@.len() == i,
                forall|j: int|
                    0 <= j < i ==> (#[trigger] out@[j]).0 == self.roles.listed()[j].0
                        && out@[j].1@ == self.roles.listed()[j].1@,
            decreases n - i,
        {
            let e = self.roles.entry(i);
            out.push((e.0, e.1.as_str()));
            i += 1;
        }
        proof {
            assert(self@.roles.dom() =~= self.roles@.dom());
            assert forall|i: int| 0 <= i < out@.len() implies self@.roles.dom().contains(
                (#[trigger] out@[i]).0,
            ) && self@.roles[out@[i].0] == out@[i].1@ by {
                self.roles.lemma_entry(i);
            }
        }
        out
    }

    /// The next role id this store would hand out.
    pub fn next_role_id(&self) -> (r: RoleId)
        ensures
            r == self@.next,
    {
        self.next_role
    }

    /// Puts back a role read from a record. The reserved role is skipped.
    pub fn restore_role(&mut self, id: RoleId, name: &str)
        requires
            old(self).wf(),
        ensures
            final(self).wf(),
            final(self)@ == (if name@ == SUPERUSER@ {
                old(self)@
            } else {
                GrantsView {
                    roles: old(self)@.roles.insert(id, name@),
                    ids: old(self)@.ids.insert(name@, id),
                    ..old(self)@
                }
            }),
    {
        if same(name, SUPERUSER) {
            return;
        }
        let ghost was = self@;
        self.role_ids.insert(str::to_owned(name), id);
        self.roles.insert(id, str::to_owned(name));
        assert(self@.roles =~= was.roles.insert(id, name@));
    }

    /// Puts back a grant read from a record, if its role is one this store has.
    pub fn restore_grant(&mut self, key: GrantKey, privileges: Privileges) -> (r: bool)
        requires
            old(self).wf(),
        ensures
            final(self).wf(),
            r == (privileges.0 != 0 && old(self)@.roles.dom().contains(key.role)),
            final(self)@ == (if r {
                old(self)@.setting(key, privileges.0)
            } else {
                old(self)@
            }),
    {
        if privileges.is_empty() || self.roles.get(&key.role).is_none() {
            return false;
        }
        let ghost was = self@;
        self.grants.insert(key, privileges.0);
        assert(self@ =~= was.setting(key, privileges.0));
        true
    }

    /// Raises the id high-water mark to at least `value`.
    pub fn observe_role_id(&mut self, value: RoleId)
        requires
            old(self).wf(),
        ensures
            final(self).wf(),
            final(self)@ == (GrantsView {
                next: if old(self)@.next < value {
                    value
                } else {
                    old(self)@.next
                },
                ..old(self)@
            }),
    {
        if self.next_role < value {
            self.next_role = value;
        }
    }

    /// Derives the counter from the roles present: it becomes at least one more than every id.
    pub fn seal(&mut self)
        requires
            old(self).wf(),
            !old(self)@.roles.dom().contains(u32::MAX),
        ensures
            final(self).wf(),
            final(self)@ == (GrantsView { next: final(self)@.next, ..old(self)@ }),
            final(self)@.next >= old(self)@.next,
            forall|id: RoleId|
                #[trigger] old(self)@.roles.dom().contains(id) ==> id < final(self)@.next,
            final(self)@.next == old(self)@.next || exists|id: RoleId|
                #[trigger] old(self)@.roles.dom().contains(id) && id + 1 == final(self)@.next,
    {
        let n = self.roles.len();
        let ghost was = self@;
        if n > 0 {
            let last = self.roles.entry(n - 1).0;
            proof {
                self.roles.lemma_entry(n - 1);
                assert(was.roles.dom().contains(last));
                assert forall|id: RoleId| #[trigger] was.roles.dom().contains(id) implies id
                    <= last by {
                    assert(self.roles@.dom().contains(id));
                    let j = choose|j: int|
                        0 <= j < self.roles.listed().len() && (#[trigger] self.roles.listed()[j]).0@
                            == id;
                }
            }
            let derived: u32 = last + 1;
            if self.next_role < derived {
                self.next_role = derived;
            }
        } else {
            assert forall|id: RoleId| !(#[trigger] was.roles.dom().contains(id)) by {
                if was.roles.dom().contains(id) {
                    assert(self.roles@.dom().contains(id));
                }
            }
        }
    }

    /// Forgets every grant naming this table.
    pub fn forget_table(&mut self, table: TableId)
        requires
            old(self).wf(),
        ensures
            final(self).wf(),
            final(self)@ == old(self)@.keeping(|k: GrantKey| k.table != table),
    {
        let ghost was = self@;
        self.forget(Going::Table(table));
        assert(self@.grants =~= was.keeping(|k: GrantKey| k.table != table).grants);
    }

    /// Forgets every grant naming this database, at either level.
    pub fn forget_database(&mut self, database: DatabaseId)
        requires
            old(self).wf(),
        ensures
            final(self).wf(),
            final(self)@ == old(self)@.keeping(|k: GrantKey| k.database != database),
    {
        let ghost was = self@;
        self.forget(Going::Database(database));
        assert(self@.grants =~= was.keeping(|k: GrantKey| k.database != database).grants);
    }

    /// What a role effectively holds on one object.
    pub fn effective(&self, role: RoleId, database: DatabaseId, table: TableId) -> (r: Privileges)
        requires
            self.wf(),
        ensures
            r.0 == self@.held(role, database, table),
    {
        let mut held = self.get(GrantKey::server(role));
        if database != ANY_DATABASE {
            held = held.union(self.get(GrantKey::database(role, database)));
            if table != ANY_TABLE {
                held = held.union(self.get(GrantKey::table(role, database, table)));
            }
        }
        Privileges(held.0 & Privileges::known().0)
    }

    /// Whether a role holds one privilege on one object.
    pub fn allows(
        &self,
        role: RoleId,
        privilege: Privilege,
        database: DatabaseId,
        table: TableId,
    ) -> (r: bool)
        requires
            self.wf(),
        ensures
            r == Privileges(self@.held(role, database, table)).has(privilege),
    {
        self.effective(role, database, table).contains(privilege)
    }
}

/// Holding a privilege at any level that covers an object is holding it there, and there is no
/// other way to hold it.
pub proof fn levels_add_up(
    g: GrantsView,
    role: RoleId,
    database: DatabaseId,
    table: TableId,
    p: Privilege,
)
    requires
        database != ANY_DATABASE,
        table != ANY_TABLE,
    ensures
        Privileges(g.held(role, database, table)).has(p) <==> (Privileges(
            g.raw(server_key(role)),
        ).has(p) || Privileges(g.raw(database_key(role, database))).has(p) || Privileges(
            g.raw(table_key(role, database, table)),
        ).has(p)),
        Privileges(g.held(role, database, ANY_TABLE)).has(p) <==> (Privileges(
            g.raw(server_key(role)),
        ).has(p) || Privileges(g.raw(database_key(role, database))).has(p)),
        Privileges(g.held(role, ANY_DATABASE, table)).has(p) <==> Privileges(
            g.raw(server_key(role)),
        ).has(p),
{
    let a = g.raw(server_key(role));
    let b = g.raw(database_key(role, database));
    let c = g.raw(table_key(role, database, table));
    let i = p.index();
    assert(((a | b | c) & 255u32) & (1u32 << i) != 0 <==> (a & (1u32 << i) != 0 || b & (1u32 << i)
        != 0 || c & (1u32 << i) != 0)) by (bit_vector)
        requires
            i < 8,
    ;
    assert(((a | b) & 255u32) & (1u32 << i) != 0 <==> (a & (1u32 << i) != 0 || b & (1u32 << i)
        != 0)) by (bit_vector)
        requires
            i < 8,
    ;
    assert((a & 255u32) & (1u32 << i) != 0 <==> a & (1u32 << i) != 0) by (bit_vector)
        requires
            i < 8,
    ;
}

/// A mask is stored whole and acted on narrowed: no bit outside the named ones is ever held.
pub proof fn unnamed_bits_are_never_held(
    g: GrantsView,
    role: RoleId,
    database: DatabaseId,
    table: TableId,
)
    ensures
        g.held(role, database, table) & !255u32 == 0,
{
    let a = g.raw(server_key(role));
    let b = g.raw(database_key(role, database));
    let c = g.raw(table_key(role, database, table));
    assert(((a | b | c) & 255u32) & !255u32 == 0) by (bit_vector);
    assert(((a | b) & 255u32) & !255u32 == 0) by (bit_vector);
    assert((a & 255u32) & !255u32 == 0) by (bit_vector);
}

/// A role with no grants holds nothing anywhere.
pub proof fn a_role_without_grants_holds_nothing(
    g: GrantsView,
    role: RoleId,
    database: DatabaseId,
    table: TableId,
)
    requires
        forall|k: GrantKey| #[trigger] g.grants.dom().contains(k) ==> k.role != role,
    ensures
        g.held(role, database, table) == 0,
{
    assert((0u32 | 0u32 | 0u32) & 255u32 == 0) by (bit_vector);
    assert((0u32 | 0u32) & 255u32 == 0) by (bit_vector);
    assert(0u32 & 255u32 == 0) by (bit_vector);
}

/// Setting a mask is absolute: doing it twice is doing it once, and the last one wins.
pub proof fn setting_is_absolute(g: GrantsView, key: GrantKey, first: u32, last: u32)
    ensures
        g.setting(key, first).setting(key, last) == g.setting(key, last),
        g.setting(key, last).raw(key) == last,
        forall|k: GrantKey| k != key ==> #[trigger] g.setting(key, last).raw(k) == g.raw(k),
{
    assert(g.setting(key, first).setting(key, last) =~= g.setting(key, last));
}

/// A role dropped and made again gets an id above the one it had, and none of its grants.
pub proof fn a_remade_role_starts_empty(g: GrantsView, name: Seq<char>, dropped: GrantsView)
    requires
        g.settled(),
        g.ids.dom().contains(name),
        dropped == (GrantsView {
            ids: g.ids.remove(name),
            roles: g.roles.remove(g.ids[name]),
            ..g.keeping(|k: GrantKey| k.role != g.ids[name])
        }),
    ensures
        dropped.settled(),
        !dropped.ids.dom().contains(name),
        g.ids[name] < dropped.next,
        forall|d: DatabaseId, t: TableId| #[trigger] dropped.held(dropped.next, d, t) == 0,
        forall|d: DatabaseId, t: TableId| #[trigger] dropped.held(g.ids[name], d, t) == 0,
{
    assert forall|d: DatabaseId, t: TableId| #[trigger] dropped.held(dropped.next, d, t) == 0 by {
        a_role_without_grants_holds_nothing(dropped, dropped.next, d, t);
    }
    assert forall|d: DatabaseId, t: TableId| #[trigger] dropped.held(g.ids[name], d, t) == 0 by {
        a_role_without_grants_holds_nothing(dropped, g.ids[name], d, t);
    }
}

/// In a settled store the id a new role gets is one no role and no grant carries, and the store
/// stays settled.
pub proof fn a_new_role_gets_a_fresh_id(g: GrantsView, name: Seq<char>)
    requires
        g.settled(),
        g.next < u32::MAX,
    ensures
        !g.roles.dom().contains(g.next),
        forall|n: Seq<char>| #[trigger] g.ids.dom().contains(n) ==> g.ids[n] != g.next,
        forall|k: GrantKey| #[trigger] g.grants.dom().contains(k) ==> k.role != g.next,
        (GrantsView {
            roles: g.roles.insert(g.next, name),
            ids: g.ids.insert(name, g.next),
            grants: g.grants,
            next: (g.next + 1) as u32,
        }).settled(),
{
}

} // verus!
