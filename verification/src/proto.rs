//! The messages that the engine, the cache and the clients exchange.
//!
//! A message is known to contracts by its view, in which text and lists stand
//! as sequences. Two messages are equal when their fields are, and numbers
//! compare as IEEE 754 says, so a message that holds a NaN differs from itself.

use vstd::prelude::*;

verus! {

/// Weight of the bit that holds the sign of a double.
pub const SIGN_WEIGHT: u64 = 0x8000_0000_0000_0000;

/// Bits of positive infinity: the largest magnitude that is a number.
pub const INFINITY_BITS: u64 = 0x7ff0_0000_0000_0000;

/// A number of a message, held as the bits of an IEEE 754 double.
#[derive(Debug, Clone, Copy)]
pub struct Real {
    pub bits: u64,
}

/// The bits without the sign.
pub open spec fn magnitude(bits: u64) -> u64 {
    if bits >= SIGN_WEIGHT {
        (bits - SIGN_WEIGHT) as u64
    } else {
        bits
    }
}

/// The bits stand for no number.
pub open spec fn is_nan(a: Real) -> bool {
    magnitude(a.bits) > INFINITY_BITS
}

/// The two stand for the same number. The zeros are the same; a NaN is the
/// same as nothing.
pub open spec fn same_real(a: Real, b: Real) -> bool {
    &&& !is_nan(a)
    &&& !is_nan(b)
    &&& a.bits == b.bits || (magnitude(a.bits) == 0 && magnitude(b.bits) == 0)
}

impl Real {
    pub fn from_bits(bits: u64) -> (number: Self)
        ensures
            number.bits == bits,
    {
        Real { bits }
    }

    pub fn to_bits(self) -> (bits: u64)
        ensures
            bits == self.bits,
    {
        self.bits
    }

    fn magnitude_bits(&self) -> (bits: u64)
        ensures
            bits == magnitude(self.bits),
    {
        if self.bits >= SIGN_WEIGHT {
            self.bits - SIGN_WEIGHT
        } else {
            self.bits
        }
    }
}

impl PartialEq for Real {
    fn eq(&self, other: &Self) -> (same: bool) {
        let a: u64 = self.magnitude_bits();
        let b: u64 = other.magnitude_bits();
        a <= INFINITY_BITS && b <= INFINITY_BITS && (self.bits == other.bits || (a == 0 && b == 0))
    }
}

impl vstd::std_specs::cmp::PartialEqSpecImpl for Real {
    open spec fn obeys_eq_spec() -> bool {
        true
    }

    open spec fn eq_spec(&self, other: &Self) -> bool {
        same_real(*self, *other)
    }
}

impl Default for Real {
    fn default() -> (zero: Self)
        ensures
            zero.bits == 0,
    {
        Real { bits: 0 }
    }
}

/// A point of the world.
#[derive(Debug, Clone, Copy)]
pub struct Position {
    pub x: Real,
    pub y: Real,
    pub z: Real,
}

pub open spec fn same_position(a: Position, b: Position) -> bool {
    same_real(a.x, b.x) && same_real(a.y, b.y) && same_real(a.z, b.z)
}

impl PartialEq for Position {
    fn eq(&self, other: &Self) -> (same: bool) {
        self.x == other.x && self.y == other.y && self.z == other.z
    }
}

impl vstd::std_specs::cmp::PartialEqSpecImpl for Position {
    open spec fn obeys_eq_spec() -> bool {
        true
    }

    open spec fn eq_spec(&self, other: &Self) -> bool {
        same_position(*self, *other)
    }
}

impl Default for Position {
    fn default() -> (origin: Self)
        ensures
            origin.x.bits == 0,
            origin.y.bits == 0,
            origin.z.bits == 0,
    {
        Position { x: Real::default(), y: Real::default(), z: Real::default() }
    }
}

/// Do the two hold the same bytes?
fn same_bytes(a: &Vec<u8>, b: &Vec<u8>) -> (same: bool)
    ensures
        same == (a@ == b@),
{
    if a.len() != b.len() {
        return false;
    }
    let mut i: usize = 0;
    while i < a.len()
        invariant
            i <= a@.len(),
            a@.len() == b@.len(),
            forall|k: int| 0 <= k < i ==> a@[k] == b@[k],
        decreases a@.len() - i,
    {
        if a[i] != b[i] {
            return false;
        }
        i = i + 1;
    }
    assert(a@ =~= b@);
    true
}

/// A copy of some bytes.
fn copy_bytes(bytes: &Vec<u8>) -> (copy: Vec<u8>)
    ensures
        copy@ == bytes@,
{
    let copy = bytes.clone();
    assert(copy@ =~= bytes@);
    copy
}

/// What changes about a unit from tick to tick. The fields that the server does
/// not read are passed on in `rest`, in the form in which the engine wrote them.
#[derive(Debug)]
pub struct UnitState {
    pub position: Option<Position>,
    pub rest: Vec<u8>,
}

#[verifier::ext_equal]
pub struct UnitStateView {
    pub position: Option<Position>,
    pub rest: Seq<u8>,
}

impl View for UnitState {
    type V = UnitStateView;

    open spec fn view(&self) -> UnitStateView {
        UnitStateView { position: self.position, rest: self.rest@ }
    }
}

pub open spec fn same_state(a: UnitStateView, b: UnitStateView) -> bool {
    &&& match (a.position, b.position) {
        (Some(p), Some(q)) => same_position(p, q),
        (None, None) => true,
        _ => false,
    }
    &&& a.rest == b.rest
}

impl PartialEq for UnitState {
    fn eq(&self, other: &Self) -> (same: bool) {
        self.position == other.position && same_bytes(&self.rest, &other.rest)
    }
}

impl vstd::std_specs::cmp::PartialEqSpecImpl for UnitState {
    open spec fn obeys_eq_spec() -> bool {
        true
    }

    open spec fn eq_spec(&self, other: &Self) -> bool {
        same_state(self@, other@)
    }
}

impl Clone for UnitState {
    fn clone(&self) -> (copy: Self)
        ensures
            copy@ == self@,
    {
        UnitState { position: self.position, rest: copy_bytes(&self.rest) }
    }
}

impl Default for UnitState {
    fn default() -> (state: Self)
        ensures
            state@ == (UnitStateView { position: None, rest: seq![] }),
    {
        let state = UnitState { position: None, rest: Vec::new() };
        assert(state@ =~= (UnitStateView { position: None, rest: seq![] }));
        state
    }
}

/// The view of a unit's state that may be missing.
pub open spec fn state_view(state: Option<UnitState>) -> Option<UnitStateView> {
    match state {
        Some(state) => Some(state@),
        None => None,
    }
}

/// A unit. `group_id` is the only place where its membership is recorded.
#[derive(Debug)]
pub struct Unit {
    pub id: String,
    pub group_id: String,
    pub category: i32,
    pub kind: String,
    pub state: Option<UnitState>,
}

pub struct UnitView {
    pub id: Seq<char>,
    pub group_id: Seq<char>,
    pub category: i32,
    pub kind: Seq<char>,
    pub state: Option<UnitStateView>,
}

impl View for Unit {
    type V = UnitView;

    open spec fn view(&self) -> UnitView {
        UnitView {
            id: self.id@,
            group_id: self.group_id@,
            category: self.category,
            kind: self.kind@,
            state: state_view(self.state),
        }
    }
}

pub open spec fn same_unit(a: UnitView, b: UnitView) -> bool {
    &&& a.id == b.id
    &&& a.group_id == b.group_id
    &&& a.category == b.category
    &&& a.kind == b.kind
    &&& match (a.state, b.state) {
        (Some(s), Some(t)) => same_state(s, t),
        (None, None) => true,
        _ => false,
    }
}

impl PartialEq for Unit {
    fn eq(&self, other: &Self) -> (same: bool) {
        self.id == other.id && self.group_id == other.group_id && self.category == other.category
            && self.kind == other.kind && self.state == other.state
    }
}

impl vstd::std_specs::cmp::PartialEqSpecImpl for Unit {
    open spec fn obeys_eq_spec() -> bool {
        true
    }

    open spec fn eq_spec(&self, other: &Self) -> bool {
        same_unit(self@, other@)
    }
}

impl Clone for Unit {
    fn clone(&self) -> (copy: Self)
        ensures
            copy@ == self@,
    {
        Unit {
            id: self.id.clone(),
            group_id: self.group_id.clone(),
            category: self.category,
            kind: self.kind.clone(),
            state: match &self.state {
                Some(state) => Some(state.clone()),
                None => None,
            },
        }
    }
}

/// The views of a list of units.
pub open spec fn units_view(units: Seq<Unit>) -> Seq<UnitView> {
    units.map_values(|u: Unit| u@)
}

/// A group. `units` is filled in when the group is read.
#[derive(Debug)]
pub struct Group {
    pub id: String,
    pub side: i32,
    pub readiness: Option<i32>,
    pub has_task: bool,
    pub waypoints: Vec<Position>,
    pub units: Vec<Unit>,
}

#[verifier::ext_equal]
pub struct GroupView {
    pub id: Seq<char>,
    pub side: i32,
    pub readiness: Option<i32>,
    pub has_task: bool,
    pub waypoints: Seq<Position>,
    pub units: Seq<UnitView>,
}

impl View for Group {
    type V = GroupView;

    open spec fn view(&self) -> GroupView {
        GroupView {
            id: self.id@,
            side: self.side,
            readiness: self.readiness,
            has_task: self.has_task,
            waypoints: self.waypoints@,
            units: units_view(self.units@),
        }
    }
}

pub open spec fn same_positions(a: Seq<Position>, b: Seq<Position>) -> bool {
    &&& a.len() == b.len()
    &&& forall|i: int| 0 <= i < a.len() ==> same_position(#[trigger] a[i], b[i])
}

pub open spec fn same_units(a: Seq<UnitView>, b: Seq<UnitView>) -> bool {
    &&& a.len() == b.len()
    &&& forall|i: int| 0 <= i < a.len() ==> same_unit(#[trigger] a[i], b[i])
}

pub open spec fn same_group(a: GroupView, b: GroupView) -> bool {
    &&& a.id == b.id
    &&& a.side == b.side
    &&& a.readiness == b.readiness
    &&& a.has_task == b.has_task
    &&& same_positions(a.waypoints, b.waypoints)
    &&& same_units(a.units, b.units)
}

/// The position is made of numbers.
pub open spec fn position_in_numbers(p: Position) -> bool {
    !is_nan(p.x) && !is_nan(p.y) && !is_nan(p.z)
}

/// The unit holds no NaN.
pub open spec fn unit_in_numbers(unit: UnitView) -> bool {
    unit.state is Some && unit.state->0.position is Some ==> position_in_numbers(
        unit.state->0.position->0,
    )
}

/// The group holds no NaN.
pub open spec fn group_in_numbers(group: GroupView) -> bool {
    &&& forall|i: int| 0 <= i < group.waypoints.len() ==> position_in_numbers(#[trigger] group.waypoints[i])
    &&& forall|i: int| 0 <= i < group.units.len() ==> unit_in_numbers(#[trigger] group.units[i])
}

/// The group, if there is one, holds no NaN.
pub open spec fn joined_in_numbers(group: Option<GroupView>) -> bool {
    group is Some ==> group_in_numbers(group->0)
}

/// Law: a group equals itself, unless it holds a NaN.
pub proof fn law_same_group_reflexive(a: GroupView)
    ensures
        same_group(a, a) <==> group_in_numbers(a),
{
    if same_group(a, a) {
        assert forall|i: int| 0 <= i < a.waypoints.len() implies position_in_numbers(
            #[trigger] a.waypoints[i],
        ) by {
            assert(same_position(a.waypoints[i], a.waypoints[i]));
        }
        assert forall|i: int| 0 <= i < a.units.len() implies unit_in_numbers(#[trigger] a.units[i]) by {
            assert(same_unit(a.units[i], a.units[i]));
        }
    }
    if group_in_numbers(a) {
        assert forall|i: int| 0 <= i < a.waypoints.len() implies same_position(
            #[trigger] a.waypoints[i],
            a.waypoints[i],
        ) by {
            assert(position_in_numbers(a.waypoints[i]));
        }
        assert forall|i: int| 0 <= i < a.units.len() implies same_unit(#[trigger] a.units[i], a.units[i]) by {
            assert(unit_in_numbers(a.units[i]));
        }
    }
}

/// Law: the equality of groups is symmetric.
pub proof fn law_same_group_symmetric(a: GroupView, b: GroupView)
    requires
        same_group(a, b),
    ensures
        same_group(b, a),
{
    assert forall|i: int| 0 <= i < b.waypoints.len() implies same_position(
        #[trigger] b.waypoints[i],
        a.waypoints[i],
    ) by {
        assert(same_position(a.waypoints[i], b.waypoints[i]));
    }
    assert forall|i: int| 0 <= i < b.units.len() implies same_unit(#[trigger] b.units[i], a.units[i]) by {
        assert(same_unit(a.units[i], b.units[i]));
    }
}

/// Law: the equality of groups is transitive.
pub proof fn law_same_group_transitive(a: GroupView, b: GroupView, c: GroupView)
    requires
        same_group(a, b),
        same_group(b, c),
    ensures
        same_group(a, c),
{
    assert forall|i: int| 0 <= i < a.waypoints.len() implies same_position(
        #[trigger] a.waypoints[i],
        c.waypoints[i],
    ) by {
        assert(same_position(b.waypoints[i], c.waypoints[i]));
    }
    assert forall|i: int| 0 <= i < a.units.len() implies same_unit(#[trigger] a.units[i], c.units[i]) by {
        assert(same_unit(b.units[i], c.units[i]));
    }
}

/// Lists of units compare unit by unit.
proof fn lemma_units_eq(a: Vec<Unit>, b: Vec<Unit>)
    ensures
        vstd::std_specs::cmp::PartialEqSpec::eq_spec(&a, &b) == same_units(units_view(a@), units_view(b@)),
{
    let u = units_view(a@);
    let v = units_view(b@);
    if vstd::std_specs::cmp::PartialEqSpec::eq_spec(&a, &b) {
        assert forall|i: int| 0 <= i < u.len() implies same_unit(#[trigger] u[i], v[i]) by {
            assert(vstd::std_specs::cmp::PartialEqSpec::eq_spec(&a[i], &b[i]));
        }
    }
    if same_units(u, v) {
        assert forall|i: int| 0 <= i < a@.len() implies vstd::std_specs::cmp::PartialEqSpec::eq_spec(
            #[trigger] &a[i],
            &b[i],
        ) by {
            assert(same_unit(u[i], v[i]));
        }
    }
}

impl PartialEq for Group {
    fn eq(&self, other: &Self) -> (same: bool) {
        let same = self.id == other.id && self.side == other.side && self.readiness
            == other.readiness && self.has_task == other.has_task && self.waypoints
            == other.waypoints && self.units == other.units;
        proof {
            lemma_units_eq(self.units, other.units);
        }
        same
    }
}

impl vstd::std_specs::cmp::PartialEqSpecImpl for Group {
    open spec fn obeys_eq_spec() -> bool {
        true
    }

    open spec fn eq_spec(&self, other: &Self) -> bool {
        same_group(self@, other@)
    }
}

impl Clone for Group {
    fn clone(&self) -> (copy: Self)
        ensures
            copy@ == self@,
    {
        let waypoints = self.waypoints.clone();
        let units = self.units.clone();
        proof {
            assert(waypoints@ =~= self.waypoints@);
            assert(units_view(units@) =~= units_view(self.units@));
        }
        Group {
            id: self.id.clone(),
            side: self.side,
            readiness: self.readiness,
            has_task: self.has_task,
            waypoints,
            units,
        }
    }
}

/// A number that stands for no side.
#[derive(Debug, Clone, Copy, PartialEq, Eq, Structural)]
pub struct UnknownSide(pub i32);

/// A side of the conflict.
#[derive(Debug, Clone, Copy, PartialEq, Eq, Hash, Structural)]
pub enum Side {
    Unspecified,
    Blufor,
    Opfor,
    Independent,
    Civilian,
}

/// The number by which messages hold a side.
pub open spec fn side_code(side: Side) -> i32 {
    match side {
        Side::Unspecified => 0,
        Side::Blufor => 1,
        Side::Opfor => 2,
        Side::Independent => 3,
        Side::Civilian => 4,
    }
}

/// The number stands for the side.
pub open spec fn is_side(code: i32, side: Side) -> bool {
    code == side_code(side)
}

/// The side that the number stands for.
pub open spec fn side_for(code: i32) -> Option<Side> {
    if is_side(code, Side::Unspecified) {
        Some(Side::Unspecified)
    } else if is_side(code, Side::Blufor) {
        Some(Side::Blufor)
    } else if is_side(code, Side::Opfor) {
        Some(Side::Opfor)
    } else if is_side(code, Side::Independent) {
        Some(Side::Independent)
    } else if is_side(code, Side::Civilian) {
        Some(Side::Civilian)
    } else {
        None
    }
}

/// The number passes a filter for `side`; without one every number does.
pub open spec fn side_matches(side: Option<Side>, code: i32) -> bool {
    match side {
        Some(side) => is_side(code, side),
        None => true,
    }
}

impl Side {
    /// The number of the side.
    pub fn code(self) -> (code: i32)
        ensures
            is_side(code, self),
    {
        match self {
            Side::Unspecified => 0,
            Side::Blufor => 1,
            Side::Opfor => 2,
            Side::Independent => 3,
            Side::Civilian => 4,
        }
    }
}

impl TryFrom<i32> for Side {
    type Error = UnknownSide;

    fn try_from(code: i32) -> (side: Result<Self, UnknownSide>)
        ensures
            match side {
                Ok(side) => is_side(code, side),
                Err(unknown) => unknown.0 == code && forall|side: Side| !is_side(code, side),
            },
    {
        match code {
            0 => Ok(Side::Unspecified),
            1 => Ok(Side::Blufor),
            2 => Ok(Side::Opfor),
            3 => Ok(Side::Independent),
            4 => Ok(Side::Civilian),
            _ => Err(UnknownSide(code)),
        }
    }
}

impl vstd::std_specs::convert::TryFromSpecImpl<i32> for Side {
    open spec fn obeys_try_from_spec() -> bool {
        true
    }

    open spec fn try_from_spec(code: i32) -> Result<Self, UnknownSide> {
        match side_for(code) {
            Some(side) => Ok(side),
            None => Err(UnknownSide(code)),
        }
    }
}

/// Does the number pass the filter?
pub fn passes_side(side: Option<Side>, code: i32) -> (passes: bool)
    ensures
        passes == side_matches(side, code),
{
    match side {
        Some(side) => match Side::try_from(code) {
            Ok(found) => found == side,
            Err(_) => false,
        },
        None => true,
    }
}

/// What is known of the simulation for as long as it runs. Fields that the server
/// does not read are passed on in `rest`.
#[derive(Debug, PartialEq, Eq)]
pub struct SimulationInfo {
    pub world_name: String,
    pub rest: Vec<u8>,
}

#[verifier::ext_equal]
pub struct SimulationInfoView {
    pub world_name: Seq<char>,
    pub rest: Seq<u8>,
}

impl View for SimulationInfo {
    type V = SimulationInfoView;

    open spec fn view(&self) -> SimulationInfoView {
        SimulationInfoView { world_name: self.world_name@, rest: self.rest@ }
    }
}

impl Clone for SimulationInfo {
    fn clone(&self) -> (copy: Self)
        ensures
            copy@ == self@,
    {
        SimulationInfo { world_name: self.world_name.clone(), rest: copy_bytes(&self.rest) }
    }
}

impl Default for SimulationInfo {
    fn default() -> (info: Self)
        ensures
            info@ == (SimulationInfoView { world_name: seq![], rest: seq![] }),
    {
        let info = SimulationInfo { world_name: String::new(), rest: Vec::new() };
        assert(info@ =~= (SimulationInfoView { world_name: seq![], rest: seq![] }));
        info
    }
}

/// What changes about the simulation from tick to tick. Fields that the server
/// does not read are passed on in `rest`.
#[derive(Debug, PartialEq, Eq)]
pub struct SimulationStateUpdate {
    pub simulation_time: i64,
    pub rest: Vec<u8>,
}

#[verifier::ext_equal]
pub struct SimulationStateUpdateView {
    pub simulation_time: i64,
    pub rest: Seq<u8>,
}

impl View for SimulationStateUpdate {
    type V = SimulationStateUpdateView;

    open spec fn view(&self) -> SimulationStateUpdateView {
        SimulationStateUpdateView { simulation_time: self.simulation_time, rest: self.rest@ }
    }
}

impl Clone for SimulationStateUpdate {
    fn clone(&self) -> (copy: Self)
        ensures
            copy@ == self@,
    {
        SimulationStateUpdate {
            simulation_time: self.simulation_time,
            rest: copy_bytes(&self.rest),
        }
    }
}

impl Default for SimulationStateUpdate {
    fn default() -> (state: Self)
        ensures
            state@ == (SimulationStateUpdateView { simulation_time: 0, rest: seq![] }),
    {
        let state = SimulationStateUpdate { simulation_time: 0, rest: Vec::new() };
        assert(state@ =~= (SimulationStateUpdateView { simulation_time: 0, rest: seq![] }));
        state
    }
}

/// The view of a simulation state that may be missing.
pub open spec fn simulation_state_view(state: Option<SimulationStateUpdate>) -> Option<
    SimulationStateUpdateView,
> {
    match state {
        Some(state) => Some(state@),
        None => None,
    }
}

/// A copy of a simulation state that may be missing.
pub(crate) fn copy_state(state: &Option<SimulationStateUpdate>) -> (copy: Option<SimulationStateUpdate>)
    ensures
        simulation_state_view(copy) == simulation_state_view(*state),
{
    match state {
        Some(state) => Some(state.clone()),
        None => None,
    }
}

/// A place of the world and the side that holds it. Fields that the server does
/// not read are passed on in `rest`.
#[derive(Debug, PartialEq, Eq)]
pub struct Location {
    pub id: String,
    pub owner: i32,
    pub rest: Vec<u8>,
}

#[verifier::ext_equal]
pub struct LocationView {
    pub id: Seq<char>,
    pub owner: i32,
    pub rest: Seq<u8>,
}

impl View for Location {
    type V = LocationView;

    open spec fn view(&self) -> LocationView {
        LocationView { id: self.id@, owner: self.owner, rest: self.rest@ }
    }
}

impl Clone for Location {
    fn clone(&self) -> (copy: Self)
        ensures
            copy@ == self@,
    {
        Location { id: self.id.clone(), owner: self.owner, rest: copy_bytes(&self.rest) }
    }
}

impl Default for Location {
    fn default() -> (location: Self)
        ensures
            location@ == (LocationView { id: seq![], owner: 0, rest: seq![] }),
    {
        let location = Location { id: String::new(), owner: 0, rest: Vec::new() };
        assert(location@ =~= (LocationView { id: seq![], owner: 0, rest: seq![] }));
        location
    }
}

/// The views of a list of locations.
pub open spec fn locations_view(locations: Seq<Location>) -> Seq<LocationView> {
    locations.map_values(|l: Location| l@)
}

/// The views of a list of groups.
pub open spec fn groups_view(groups: Seq<Group>) -> Seq<GroupView> {
    groups.map_values(|g: Group| g@)
}

/// What happened to a group.
#[derive(Debug, PartialEq)]
pub enum GroupUpdate {
    Upserted(Group),
    RemovedId(String),
}

#[verifier::ext_equal]
pub enum GroupUpdateView {
    Upserted(GroupView),
    RemovedId(Seq<char>),
}

impl View for GroupUpdate {
    type V = GroupUpdateView;

    open spec fn view(&self) -> GroupUpdateView {
        match self {
            GroupUpdate::Upserted(group) => GroupUpdateView::Upserted(group@),
            GroupUpdate::RemovedId(id) => GroupUpdateView::RemovedId(id@),
        }
    }
}

impl Clone for GroupUpdate {
    fn clone(&self) -> (copy: Self)
        ensures
            copy@ == self@,
    {
        match self {
            GroupUpdate::Upserted(group) => GroupUpdate::Upserted(group.clone()),
            GroupUpdate::RemovedId(id) => GroupUpdate::RemovedId(id.clone()),
        }
    }
}

/// One message of a group subscription.
#[derive(Debug, PartialEq)]
pub struct SubscribeGroupUpdatesResponse {
    pub event: Option<GroupUpdate>,
}

impl View for SubscribeGroupUpdatesResponse {
    type V = Option<GroupUpdateView>;

    open spec fn view(&self) -> Option<GroupUpdateView> {
        match self.event {
            Some(update) => Some(update@),
            None => None,
        }
    }
}

impl Clone for SubscribeGroupUpdatesResponse {
    fn clone(&self) -> (copy: Self)
        ensures
            copy@ == self@,
    {
        SubscribeGroupUpdatesResponse {
            event: match &self.event {
                Some(update) => Some(update.clone()),
                None => None,
            },
        }
    }
}

/// One message of a simulation subscription. Without a state the simulation
/// was reset.
#[derive(Debug, PartialEq, Eq)]
pub struct SubscribeSimulationUpdatesResponse {
    pub state: Option<SimulationStateUpdate>,
}

impl View for SubscribeSimulationUpdatesResponse {
    type V = Option<SimulationStateUpdateView>;

    open spec fn view(&self) -> Option<SimulationStateUpdateView> {
        simulation_state_view(self.state)
    }
}

impl Clone for SubscribeSimulationUpdatesResponse {
    fn clone(&self) -> (copy: Self)
        ensures
            copy@ == self@,
    {
        SubscribeSimulationUpdatesResponse { state: copy_state(&self.state) }
    }
}

#[derive(Debug)]
pub struct MoveCommand {
    pub position: Option<Position>,
    pub group_id: String,
}

#[derive(Debug)]
pub struct SearchAndDestroyCommand {
    pub position: Option<Position>,
    pub group_id: String,
}

#[derive(Debug)]
pub struct DefendZoneCommand {
    pub group_id: String,
    pub zone_id: String,
    pub position: Option<Position>,
}

#[derive(Debug)]
pub struct PatrolCommand {
    pub group_id: String,
    pub waypoints: Vec<Position>,
    pub repeat: bool,
}

#[derive(Debug)]
pub struct SupportCommand {
    pub supporter_group_id: String,
    pub supported_group_id: String,
    pub support_type: String,
}

/// A command as a client wrote it.
#[derive(Debug)]
pub enum CommandRequest {
    Move(MoveCommand),
    SearchAndDestroy(SearchAndDestroyCommand),
    DefendZone(DefendZoneCommand),
    Patrol(PatrolCommand),
    Support(SupportCommand),
}

#[derive(Debug)]
pub struct SendCommandRequest {
    pub command: Option<CommandRequest>,
}

/// Law: the number of a side stands for that side and no other, and no other
/// number stands for a side.
pub proof fn law_side_numbers(side: Side, code: i32)
    ensures
        side_for(side_code(side)) == Some(side),
        side_for(code) is Some ==> code == side_code(side_for(code)->0),
{
}

/// How a command ended, as a client is told.
#[derive(Debug, Clone, Copy, PartialEq, Eq, Structural)]
pub enum CommandResult {
    Unspecified,
    Success,
    Failure,
}

#[derive(Debug, PartialEq, Eq)]
pub struct SendCommandResponse {
    pub result: CommandResult,
    pub reason: String,
}

#[verifier::ext_equal]
pub struct SendCommandResponseView {
    pub result: CommandResult,
    pub reason: Seq<char>,
}

impl View for SendCommandResponse {
    type V = SendCommandResponseView;

    open spec fn view(&self) -> SendCommandResponseView {
        SendCommandResponseView { result: self.result, reason: self.reason@ }
    }
}

} // verus!
