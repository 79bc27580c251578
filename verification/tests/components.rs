use adcn::boarding::{A320BoardingSounds, A320Cargo, A320Pax, BoardingRate, PaxInfo};
use adcn::network::a380_network_topology;
use adcn::reachability::switches_reachable;
use adcn::routing::{compute_routing_table, RoutingTableEntry};
use adcn::signals::SignalWriter;
use adcn::switch::{derive_availability, AvionicsFullDuplexSwitch};

#[test]
fn switch_availability_is_power_and_no_failure() {
    assert!(derive_availability(true, false));
    assert!(!derive_availability(true, true));
    assert!(!derive_availability(false, false));
    assert!(!derive_availability(false, true));
}

#[test]
fn switch_update_flag_is_edge_triggered() {
    let mut switch = AvionicsFullDuplexSwitch::new();
    assert!(!switch.is_available());
    assert!(!switch.routing_update_required());

    switch.update(true);
    assert!(switch.is_available());
    assert!(switch.routing_update_required());

    switch.update(true);
    assert!(switch.is_available());
    assert!(!switch.routing_update_required());

    switch.update(false);
    assert!(!switch.is_available());
    assert!(switch.routing_update_required());
}

#[test]
fn signal_writer_defaults_to_false_and_keeps_last_write() {
    let mut writer = SignalWriter::new();
    assert!(!writer.read(1, 2));

    writer.write(1, 2, true);
    assert!(writer.read(1, 2));
    assert!(!writer.read(2, 1));

    writer.write(1, 2, false);
    assert!(!writer.read(1, 2));
}

#[test]
fn routing_table_entry_publishes_both_directions() {
    let mut entry = RoutingTableEntry::new(3, 5);
    assert_eq!(entry.lower_id, 3);
    assert_eq!(entry.upper_id, 5);
    assert!(!entry.reachable);

    entry.set_reachable(true);
    let mut writer = SignalWriter::new();
    entry.publish(&mut writer);
    assert!(writer.read(3, 5));
    assert!(writer.read(5, 3));
    assert!(!writer.read(3, 3));
}

#[test]
fn reachability_gated_by_source_availability() {
    let topology = a380_network_topology();
    let mut availability = vec![true; 8];
    availability[0] = false;

    // An unavailable source reaches nothing, not even itself.
    assert!(!switches_reachable(&availability, &topology, 0, 0));
    assert!(!switches_reachable(&availability, &topology, 0, 1));
    // An available switch reaches itself and live neighbors.
    assert!(switches_reachable(&availability, &topology, 1, 1));
    assert!(switches_reachable(&availability, &topology, 1, 3));
    // An unavailable target is never found.
    assert!(!switches_reachable(&availability, &topology, 1, 0));
}

#[test]
fn reachability_follows_multi_hop_paths() {
    let topology = a380_network_topology();
    let availability = vec![true; 8];
    // Dense 0 and dense 5 share no wire; the search must hop.
    assert!(switches_reachable(&availability, &topology, 0, 5));

    // Cutting dense 1, 2 and 7 isolates dense 0 from everything else.
    let isolating = vec![true, false, false, true, true, true, true, false];
    assert!(switches_reachable(&isolating, &topology, 0, 0));
    assert!(!switches_reachable(&isolating, &topology, 0, 3));
    assert!(!switches_reachable(&isolating, &topology, 0, 5));
}

#[test]
fn computed_table_is_triangular_with_ascending_labels() {
    let topology = a380_network_topology();
    let availability = vec![true; 8];
    let ids: Vec<u8> = vec![1, 2, 3, 4, 5, 6, 7, 9];
    let table = compute_routing_table(&topology, &availability, &ids);

    assert_eq!(table.len(), 8);
    for (y, row) in table.iter().enumerate() {
        assert_eq!(row.len(), 8 - y);
        for (x, entry) in row.iter().enumerate() {
            assert_eq!(entry.lower_id, ids[y]);
            assert_eq!(entry.upper_id, ids[y + x]);
            assert!(entry.reachable);
        }
    }
}

#[test]
fn computed_table_reflects_isolation() {
    let topology = a380_network_topology();
    // Dense 0's only neighbors (1, 2, 7) are all down while dense 0
    // itself stays powered.
    let availability = vec![true, false, false, true, true, true, true, false];
    let ids: Vec<u8> = vec![1, 2, 3, 4, 5, 6, 7, 9];
    let table = compute_routing_table(&topology, &availability, &ids);

    // Self-pair of switch 1 stays true; every other pair with switch 1 is
    // false.
    assert!(table[0][0].reachable);
    for x in 1..table[0].len() {
        assert!(!table[0][x].reachable);
    }
    // A pair among the surviving switches is still connected.
    assert!(table[3][1].reachable);
}

#[test]
fn pax_station_order_is_fixed() {
    let stations = A320Pax::iterator();
    assert_eq!(stations.len(), 4);
    assert_eq!(stations[0], A320Pax::A);
    assert_eq!(stations[1], A320Pax::B);
    assert_eq!(stations[2], A320Pax::C);
    assert_eq!(stations[3], A320Pax::D);
}

#[test]
fn cargo_hold_order_is_fixed() {
    let holds = A320Cargo::iterator();
    assert_eq!(holds.len(), 4);
    assert_eq!(holds[0], A320Cargo::FwdBaggage);
    assert_eq!(holds[1], A320Cargo::AftContainer);
    assert_eq!(holds[2], A320Cargo::AftBaggage);
    assert_eq!(holds[3], A320Cargo::AftBulkLoose);
}

#[test]
fn pax_info_keeps_station_description() {
    let info = PaxInfo::new(36, "A", "PAX_FLAGS_A", "PAX_FLAGS_A_DESIRED", "PAYLOAD STATION WEIGHT:1");
    assert_eq!(info.max_pax, 36);
    assert_eq!(info.name, "A");
    assert_eq!(info.pax_id, "PAX_FLAGS_A");
    assert_eq!(info.pax_target_id, "PAX_FLAGS_A_DESIRED");
    assert_eq!(info.payload_id, "PAYLOAD STATION WEIGHT:1");
}

#[test]
fn boarding_sounds_flags_toggle_independently() {
    let mut sounds = A320BoardingSounds::new();
    assert!(!sounds.pax_board && !sounds.pax_deboard && !sounds.pax_complete && !sounds.pax_ambience);

    sounds.start_pax_boarding();
    assert!(sounds.pax_board && !sounds.pax_deboard && !sounds.pax_complete && !sounds.pax_ambience);

    sounds.start_pax_deboarding();
    sounds.start_pax_boarding_complete();
    sounds.start_pax_ambience();
    assert!(sounds.pax_board && sounds.pax_deboard && sounds.pax_complete && sounds.pax_ambience);

    sounds.stop_pax_boarding();
    assert!(!sounds.pax_board && sounds.pax_deboard && sounds.pax_complete && sounds.pax_ambience);
    sounds.stop_pax_deboarding();
    sounds.stop_pax_boarding_complete();
    sounds.stop_pax_ambience();
    assert!(!sounds.pax_board && !sounds.pax_deboard && !sounds.pax_complete && !sounds.pax_ambience);
}

#[test]
fn boarding_rates_are_distinct() {
    assert_eq!(BoardingRate::Instant, BoardingRate::Instant);
    assert_ne!(BoardingRate::Instant, BoardingRate::Fast);
    assert_ne!(BoardingRate::Fast, BoardingRate::Real);
}
