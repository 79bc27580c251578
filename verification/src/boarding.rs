//! Cabin boarding bookkeeping: the passenger and cargo stations, the
//! boarding sound flags, and the boarding rate selector.
//!
//! The per-station payload synchronization itself runs against the host
//! simulation's variable bus and arithmetic outside this library's scope;
//! here live the station descriptions and the sound state machine the
//! controller drives.

use vstd::prelude::*;

verus! {

broadcast use vstd::string::group_string_axioms;

/// The four passenger stations of the cabin, front to back.
#[derive(Clone, Copy, Debug, PartialEq, Eq, Structural)]
pub enum A320Pax {
    A,
    B,
    C,
    D,
}

impl A320Pax {
    /// All passenger stations, in cabin order.
    pub fn iterator() -> (stations: Vec<A320Pax>)
        ensures
            stations@ == seq![A320Pax::A, A320Pax::B, A320Pax::C, A320Pax::D],
    {
        let mut stations: Vec<A320Pax> = Vec::new();
        stations.push(A320Pax::A);
        stations.push(A320Pax::B);
        stations.push(A320Pax::C);
        stations.push(A320Pax::D);
        proof {
            assert(stations@ =~= seq![A320Pax::A, A320Pax::B, A320Pax::C, A320Pax::D]);
        }
        stations
    }
}

/// The four cargo holds, front to back.
#[derive(Clone, Copy, Debug, PartialEq, Eq, Structural)]
pub enum A320Cargo {
    FwdBaggage,
    AftContainer,
    AftBaggage,
    AftBulkLoose,
}

impl A320Cargo {
    /// All cargo holds, in hold order.
    pub fn iterator() -> (holds: Vec<A320Cargo>)
        ensures
            holds@ == seq![
                A320Cargo::FwdBaggage,
                A320Cargo::AftContainer,
                A320Cargo::AftBaggage,
                A320Cargo::AftBulkLoose,
            ],
    {
        let mut holds: Vec<A320Cargo> = Vec::new();
        holds.push(A320Cargo::FwdBaggage);
        holds.push(A320Cargo::AftContainer);
        holds.push(A320Cargo::AftBaggage);
        holds.push(A320Cargo::AftBulkLoose);
        proof {
            assert(holds@ =~= seq![
                A320Cargo::FwdBaggage,
                A320Cargo::AftContainer,
                A320Cargo::AftBaggage,
                A320Cargo::AftBulkLoose,
            ]);
        }
        holds
    }
}

/// The static description of one passenger station: its capacity and the
/// names of the host-simulation variables it is synchronized with.
pub struct PaxInfo {
    pub max_pax: i8,
    pub name: String,
    pub pax_id: String,
    pub pax_target_id: String,
    pub payload_id: String,
}

impl PaxInfo {
    /// Describes one passenger station.
    pub fn new(
        max_pax: i8,
        name: &str,
        pax_id: &str,
        pax_target_id: &str,
        payload_id: &str,
    ) -> (info: Self)
        ensures
            info.max_pax == max_pax,
            info.name@ == name@,
            info.pax_id@ == pax_id@,
            info.pax_target_id@ == pax_target_id@,
            info.payload_id@ == payload_id@,
    {
        PaxInfo {
            max_pax,
            name: name.to_string(),
            pax_id: pax_id.to_string(),
            pax_target_id: pax_target_id.to_string(),
            payload_id: payload_id.to_string(),
        }
    }
}

/// The boarding sound flags the cabin controller raises and clears: one
/// per sound, published to the host each tick.
pub struct A320BoardingSounds {
    pub pax_board: bool,
    pub pax_deboard: bool,
    pub pax_complete: bool,
    pub pax_ambience: bool,
}

impl A320BoardingSounds {
    /// All sounds initially silent.
    pub fn new() -> (sounds: Self)
        ensures
            !sounds.pax_board,
            !sounds.pax_deboard,
            !sounds.pax_complete,
            !sounds.pax_ambience,
    {
        A320BoardingSounds {
            pax_board: false,
            pax_deboard: false,
            pax_complete: false,
            pax_ambience: false,
        }
    }

    /// Raises the boarding sound; the other sounds are untouched.
    pub fn start_pax_boarding(&mut self)
        ensures
            *final(self) == (A320BoardingSounds { pax_board: true, ..*old(self) }),
    {
        self.pax_board = true;
    }

    /// Clears the boarding sound; the other sounds are untouched.
    pub fn stop_pax_boarding(&mut self)
        ensures
            *final(self) == (A320BoardingSounds { pax_board: false, ..*old(self) }),
    {
        self.pax_board = false;
    }

    /// Raises the deboarding sound; the other sounds are untouched.
    pub fn start_pax_deboarding(&mut self)
        ensures
            *final(self) == (A320BoardingSounds { pax_deboard: true, ..*old(self) }),
    {
        self.pax_deboard = true;
    }

    /// Clears the deboarding sound; the other sounds are untouched.
    pub fn stop_pax_deboarding(&mut self)
        ensures
            *final(self) == (A320BoardingSounds { pax_deboard: false, ..*old(self) }),
    {
        self.pax_deboard = false;
    }

    /// Raises the boarding-complete sound; the other sounds are untouched.
    pub fn start_pax_boarding_complete(&mut self)
        ensures
            *final(self) == (A320BoardingSounds { pax_complete: true, ..*old(self) }),
    {
        self.pax_complete = true;
    }

    /// Clears the boarding-complete sound; the other sounds are untouched.
    pub fn stop_pax_boarding_complete(&mut self)
        ensures
            *final(self) == (A320BoardingSounds { pax_complete: false, ..*old(self) }),
    {
        self.pax_complete = false;
    }

    /// Raises the cabin-ambience sound; the other sounds are untouched.
    pub fn start_pax_ambience(&mut self)
        ensures
            *final(self) == (A320BoardingSounds { pax_ambience: true, ..*old(self) }),
    {
        self.pax_ambience = true;
    }

    /// Clears the cabin-ambience sound; the other sounds are untouched.
    pub fn stop_pax_ambience(&mut self)
        ensures
            *final(self) == (A320BoardingSounds { pax_ambience: false, ..*old(self) }),
    {
        self.pax_ambience = false;
    }
}

/// How fast boarding progresses: instantly, or station by station with a
/// fast or a real-time delay between moves.
#[derive(Clone, Copy, Debug, PartialEq, Eq, Structural)]
pub enum BoardingRate {
    Instant,
    Fast,
    Real,
}

} // verus!
