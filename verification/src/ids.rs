//! Identifiers of units, groups and commands.

use vstd::prelude::*;

verus! {

/// Id of a [`crate::proto::Unit`], as assigned by the engine.
#[derive(Debug, PartialEq, Eq, Hash, PartialOrd, Ord)]
pub struct UnitId(String);

impl View for UnitId {
    type V = Seq<char>;

    closed spec fn view(&self) -> Seq<char> {
        self.0@
    }
}

impl UnitId {
    pub fn as_str(&self) -> (id: &str)
        ensures
            id@ == self@,
    {
        self.0.as_str()
    }

    /// The id as text.
    pub fn to_string(&self) -> (id: String)
        ensures
            id@ == self@,
    {
        self.0.clone()
    }
}

impl Clone for UnitId {
    fn clone(&self) -> (copy: Self)
        ensures
            copy@ == self@,
    {
        UnitId(self.0.clone())
    }
}

impl From<String> for UnitId {
    fn from(id: String) -> (wrapped: Self)
        ensures
            wrapped@ == id@,
    {
        UnitId(id)
    }
}

impl vstd::std_specs::convert::FromSpecImpl<String> for UnitId {
    open spec fn obeys_from_spec() -> bool {
        true
    }

    closed spec fn from_spec(id: String) -> Self {
        UnitId(id)
    }
}

impl From<&str> for UnitId {
    fn from(id: &str) -> (wrapped: Self)
        ensures
            wrapped@ == id@,
    {
        UnitId(id.to_owned())
    }
}

// What `from` copies out of a `&str` is known by its characters only.
impl vstd::std_specs::convert::FromSpecImpl<&str> for UnitId {
    open spec fn obeys_from_spec() -> bool {
        false
    }

    open spec fn from_spec(id: &str) -> Self {
        arbitrary()
    }
}

impl From<UnitId> for String {
    fn from(id: UnitId) -> (text: Self)
        ensures
            text@ == id@,
    {
        id.0
    }
}

impl vstd::std_specs::convert::FromSpecImpl<UnitId> for String {
    open spec fn obeys_from_spec() -> bool {
        true
    }

    closed spec fn from_spec(id: UnitId) -> Self {
        id.0
    }
}

/// Id of a [`crate::proto::Group`], as assigned by the engine.
#[derive(Debug, PartialEq, Eq, Hash, PartialOrd, Ord)]
pub struct GroupId(String);

impl View for GroupId {
    type V = Seq<char>;

    closed spec fn view(&self) -> Seq<char> {
        self.0@
    }
}

impl GroupId {
    pub fn as_str(&self) -> (id: &str)
        ensures
            id@ == self@,
    {
        self.0.as_str()
    }

    /// The id as text.
    pub fn to_string(&self) -> (id: String)
        ensures
            id@ == self@,
    {
        self.0.clone()
    }
}

impl Clone for GroupId {
    fn clone(&self) -> (copy: Self)
        ensures
            copy@ == self@,
    {
        GroupId(self.0.clone())
    }
}

impl From<String> for GroupId {
    fn from(id: String) -> (wrapped: Self)
        ensures
            wrapped@ == id@,
    {
        GroupId(id)
    }
}

impl vstd::std_specs::convert::FromSpecImpl<String> for GroupId {
    open spec fn obeys_from_spec() -> bool {
        true
    }

    closed spec fn from_spec(id: String) -> Self {
        GroupId(id)
    }
}

impl From<&str> for GroupId {
    fn from(id: &str) -> (wrapped: Self)
        ensures
            wrapped@ == id@,
    {
        GroupId(id.to_owned())
    }
}

// What `from` copies out of a `&str` is known by its characters only.
impl vstd::std_specs::convert::FromSpecImpl<&str> for GroupId {
    open spec fn obeys_from_spec() -> bool {
        false
    }

    open spec fn from_spec(id: &str) -> Self {
        arbitrary()
    }
}

impl From<GroupId> for String {
    fn from(id: GroupId) -> (text: Self)
        ensures
            text@ == id@,
    {
        id.0
    }
}

impl vstd::std_specs::convert::FromSpecImpl<GroupId> for String {
    open spec fn obeys_from_spec() -> bool {
        true
    }

    closed spec fn from_spec(id: GroupId) -> Self {
        id.0
    }
}

/// Id of an in-flight command, assigned by [`crate::Dispatcher`] when the
/// command is sent. Engines echo it back through [`crate::Dispatcher::complete`]
/// to acknowledge the command.
#[derive(Debug, Clone, Copy, PartialEq, Eq, Hash, PartialOrd, Ord, Structural)]
pub struct CommandId(u64);

impl View for CommandId {
    type V = u64;

    closed spec fn view(&self) -> u64 {
        self.0
    }
}

impl CommandId {
    /// The id's number.
    pub fn value(self) -> (id: u64)
        ensures
            id == self@,
    {
        self.0
    }

    /// The id as text.
    pub fn to_string(self) -> (text: String)
        ensures
            text@ == decimal(self@ as nat),
    {
        decimal_text(self.0)
    }
}

impl From<u64> for CommandId {
    /// Reconstructs a [`CommandId`] engines received from [`crate::CommandSink::dispatch`]
    /// (e.g. round-tripped through an engine-side callback) so it can be
    /// passed back to [`crate::Dispatcher::complete`].
    fn from(id: u64) -> (wrapped: Self)
        ensures
            wrapped@ == id,
    {
        CommandId(id)
    }
}

impl vstd::std_specs::convert::FromSpecImpl<u64> for CommandId {
    open spec fn obeys_from_spec() -> bool {
        true
    }

    closed spec fn from_spec(id: u64) -> Self {
        CommandId(id)
    }
}

impl From<CommandId> for u64 {
    fn from(id: CommandId) -> (raw: Self)
        ensures
            raw == id@,
    {
        id.0
    }
}

impl vstd::std_specs::convert::FromSpecImpl<CommandId> for u64 {
    open spec fn obeys_from_spec() -> bool {
        true
    }

    closed spec fn from_spec(id: CommandId) -> Self {
        id.0
    }
}

/// The decimal digits of `n`.
pub open spec fn decimal(n: nat) -> Seq<char>
    decreases n,
{
    let digit = ('0' as u32 + (n % 10)) as char;
    if n < 10 {
        seq![digit]
    } else {
        decimal(n / 10).push(digit)
    }
}

/// The digit of `n`.
fn digit_text(n: u64) -> (digit: &'static str)
    requires
        n < 10,
    ensures
        digit@ == decimal(n as nat),
{
    proof {
        reveal_strlit("0");
        reveal_strlit("1");
        reveal_strlit("2");
        reveal_strlit("3");
        reveal_strlit("4");
        reveal_strlit("5");
        reveal_strlit("6");
        reveal_strlit("7");
        reveal_strlit("8");
        reveal_strlit("9");
    }
    match n {
        0 => "0",
        1 => "1",
        2 => "2",
        3 => "3",
        4 => "4",
        5 => "5",
        6 => "6",
        7 => "7",
        8 => "8",
        _ => "9",
    }
}

/// Writes `n` in decimal.
fn decimal_text(n: u64) -> (text: String)
    ensures
        text@ == decimal(n as nat),
    decreases n,
{
    let mut text = if n < 10 { String::new() } else { decimal_text(n / 10) };
    text.append(digit_text(n % 10));
    text
}

/// The id that an allocator hands out `n` calls after it would hand out `first`.
pub open spec fn nth_id(first: u64, n: nat) -> u64 {
    ((first + n) % 0x1_0000_0000_0000_0000) as u64
}

/// Monotonic allocator for [`CommandId`]s, owned by [`crate::Dispatcher`].
#[derive(Debug)]
pub struct CommandIdAllocator(u64);

impl View for CommandIdAllocator {
    type V = u64;

    /// The id that comes next.
    closed spec fn view(&self) -> u64 {
        self.0
    }
}

impl Default for CommandIdAllocator {
    fn default() -> (ids: Self)
        ensures
            ids@ == 0,
    {
        CommandIdAllocator(0)
    }
}

impl CommandIdAllocator {
    /// Hands out the next id. After the largest the ids start over at 0.
    pub fn next(&mut self) -> (id: CommandId)
        ensures
            id@ == nth_id(old(self)@, 0),
            final(self)@ == nth_id(old(self)@, 1),
    {
        let id: u64 = self.0;
        self.0 = id.wrapping_add(1);
        CommandId(id)
    }
}

/// Law: an id is its number, so one that is rebuilt from its number is the same.
pub proof fn law_command_ids_are_their_numbers(a: CommandId, b: CommandId)
    ensures
        a == b <==> a@ == b@,
{
}

/// Law: an id handed out twice takes 2^64 calls or more in between.
pub proof fn law_ids_are_distinct(first: u64, i: nat, j: nat)
    requires
        i < j,
        j - i < 0x1_0000_0000_0000_0000,
    ensures
        nth_id(first, i) != nth_id(first, j),
{
}

/// Law: the ids that calls hand out in turn are `first`, the one after it, and so on.
pub proof fn law_ids_are_consecutive(first: u64, n: nat)
    ensures
        nth_id(nth_id(first, n), 1) == nth_id(first, n + 1),
        nth_id(nth_id(first, n), 0) == nth_id(first, n),
{
}

/// Law: an allocator hands out the number it is at and goes on to the one after it, or
/// to 0 after the largest.
pub proof fn law_ids_follow_each_other(first: u64)
    ensures
        nth_id(first, 0) == first,
        first < u64::MAX ==> nth_id(first, 1) == first + 1,
        first == u64::MAX ==> nth_id(first, 1) == 0,
{
}

/// The number that decimal digits stand for.
pub open spec fn number_of(digits: Seq<char>) -> int
    decreases digits.len(),
{
    if digits.len() == 0 {
        0
    } else {
        10 * number_of(digits.drop_last()) + (digits.last() as int - '0' as int)
    }
}

/// Law: an id is written in decimal digits that stand for its number, without a zero
/// in front.
pub proof fn law_ids_are_written_in_decimal(n: nat)
    ensures
        number_of(decimal(n)) == n,
        decimal(n).len() > 0,
        forall|i: int| 0 <= i < decimal(n).len() ==> '0' <= #[trigger] decimal(n)[i] <= '9',
        n > 0 ==> decimal(n)[0] != '0',
    decreases n,
{
    let digits = decimal(n);
    if n >= 10 {
        law_ids_are_written_in_decimal(n / 10);
        assert(digits.drop_last() =~= decimal(n / 10));
    } else {
        assert(digits.drop_last() =~= Seq::empty());
        assert(number_of(digits.drop_last()) == 0);
    }
}

} // verus!
