use chess::attack_tables::AttackTables;
use chess::bitboard::Bitboard;
use chess::fen::{parse, serialize, to_fen, try_from_fen};
use chess::move_gen::generate_moves;
use chess::move_lens::{check_move_compat, check_wf, History};
use chess::movement::Move;
use chess::xor_rand::XorRand;

fn tables() -> AttackTables {
    AttackTables::new().expect("the shipped multipliers build collision-free tables")
}

fn moves_of(fen: &str, t: &AttackTables) -> Vec<Move> {
    let st = try_from_fen(fen).expect("well-formed record");
    generate_moves(&st, t)
}

fn traits_of(m: Move) -> u32 {
    (m.0 >> 20) & 0xFFF
}

fn target_of(m: Move) -> u32 {
    (m.0 >> 4) & 0x3F
}

fn source_of(m: Move) -> u32 {
    (m.0 >> 10) & 0x3F
}

#[test]
fn initial_position_twenty_moves() {
    let t = tables();
    let ms = moves_of("rnbqkbnr/pppppppp/8/8/8/8/PPPPPPPP/RNBQKBNR w KQkq - 0 1", &t);
    assert_eq!(ms.len(), 20);
    for m in &ms {
        assert_eq!(traits_of(*m), 1, "only quiet moves open the game");
        assert_eq!(m.0 & 0xF, 0, "nothing to capture");
    }
    let pawn_moves = ms.iter().filter(|m| (m.0 >> 16) & 0xF == 1).count();
    let knight_moves = ms.iter().filter(|m| (m.0 >> 16) & 0xF == 2).count();
    assert_eq!(pawn_moves, 16);
    assert_eq!(knight_moves, 4);
}

#[test]
fn kiwipete_forty_eight_moves() {
    let t = tables();
    let ms = moves_of("r3k2r/p1ppqpb1/bn2pnp1/3PN3/1p2P3/2N2Q1p/PPPBBPPP/R3K2R w KQkq - 0 1", &t);
    assert_eq!(ms.len(), 48);
}

#[test]
fn promotion_scenario() {
    let t = tables();
    let ms = moves_of("8/P7/8/8/8/8/8/k6K w - - 0 1", &t);
    let promos: Vec<&Move> = ms.iter().filter(|m| traits_of(**m) & 8 != 0).collect();
    assert_eq!(promos.len(), 1);
    assert_eq!(source_of(*promos[0]), 8, "the pawn stands on a7");
    assert_eq!(target_of(*promos[0]), 0, "and promotes on a8");
    assert_eq!(ms.len(), 4, "the push plus the king's three steps");
}

#[test]
fn en_passant_scenario() {
    let t = tables();
    let fen = "4k3/8/8/pP6/8/8/8/4K3 w - a6 0 1";
    let ms = moves_of(fen, &t);
    let eps: Vec<&Move> = ms.iter().filter(|m| traits_of(**m) & 16 != 0).collect();
    assert_eq!(eps.len(), 1);
    let ep = *eps[0];
    assert_eq!(source_of(ep), 25, "from b5");
    assert_eq!(target_of(ep), 16, "onto a6");
    assert_eq!(ep.0 & 0xF, 9, "taking the black pawn");

    let st = try_from_fen(fen).unwrap();
    assert!(check_move_compat(&st, ep));
    let lens = History;
    let (after, _d) = lens.apply_move(st, ep);
    assert!(!after.material_layer.0[6].test_sq(24), "the black pawn leaves a5");
    assert!(!after.material_layer.0[6].test_sq(16), "and was never on a6");
    assert!(after.material_layer.0[0].test_sq(16), "the white pawn lands on a6");
}

#[test]
fn castling_blocked_by_attack() {
    let t = tables();
    let ms = moves_of("4k3/8/8/8/8/8/4r3/R3K2R w KQ - 0 1", &t);
    let castles = ms.iter().filter(|m| traits_of(**m) & 32 != 0).count();
    assert_eq!(castles, 0, "the king's own square is attacked, so neither castle is open");
}

#[test]
fn castling_open_when_safe() {
    let t = tables();
    let ms = moves_of("4k3/8/8/8/8/8/8/R3K2R w KQ - 0 1", &t);
    let castles: Vec<u32> = ms
        .iter()
        .filter(|m| traits_of(**m) & 32 != 0)
        .map(|m| target_of(*m))
        .collect();
    assert_eq!(castles, vec![62, 58]);
}

#[test]
fn magic_tables_agree_with_ray_walks() {
    let t = tables();
    let mut rng = XorRand::new();
    for s in 0..64u8 {
        let pos = chess::position::Position::from_u8(s).unwrap();
        for _ in 0..1000 {
            let occ = Bitboard(rng.rand64());
            let magic_b = t.get_bishop_attacks(pos, occ);
            let fly_b = chess::attack_generation::fly_gen_bishop_attks(pos, &occ);
            assert_eq!(magic_b.0, fly_b.0);
            let magic_r = t.get_rook_attacks(pos, occ);
            let fly_r = chess::attack_generation::fly_gen_rook_attks(pos, &occ);
            assert_eq!(magic_r.0, fly_r.0);
        }
    }
}

#[test]
fn magic_index_bounds() {
    let t = tables();
    for s in 0..64usize {
        assert!(t.bishop_bits[s] >= 1 && t.bishop_bits[s] <= 9);
        assert!(t.rook_bits[s] >= 1 && t.rook_bits[s] <= 12);
        assert!(t.bishop_attacks[s].len() <= 512);
        assert!(t.rook_attacks[s].len() <= 4096);
    }
}

#[test]
fn leaper_attack_symmetry() {
    let t = tables();
    for s in 0..64u8 {
        for q in 0..64u8 {
            let sp = chess::position::Position::from_u8(s).unwrap();
            let qp = chess::position::Position::from_u8(q).unwrap();
            assert_eq!(
                t.get_knight_attacks(sp).test_sq(q),
                t.get_knight_attacks(qp).test_sq(s)
            );
            assert_eq!(
                t.get_king_attacks(sp).test_sq(q),
                t.get_king_attacks(qp).test_sq(s)
            );
        }
    }
}

#[test]
fn slider_attack_symmetry() {
    let t = tables();
    let mut rng = XorRand::new();
    for _ in 0..200 {
        let occ = Bitboard(rng.rand64());
        for s in 0..64u8 {
            let sp = chess::position::Position::from_u8(s).unwrap();
            let ba = t.get_bishop_attacks(sp, occ);
            let ra = t.get_rook_attacks(sp, occ);
            for q in 0..64u8 {
                let qp = chess::position::Position::from_u8(q).unwrap();
                if ba.test_sq(q) {
                    assert!(t.get_bishop_attacks(qp, occ).test_sq(s));
                }
                if ra.test_sq(q) {
                    assert!(t.get_rook_attacks(qp, occ).test_sq(s));
                }
            }
        }
    }
}

#[test]
fn generator_is_deterministic() {
    let t = tables();
    let fen = "r3k2r/p1ppqpb1/bn2pnp1/3PN3/1p2P3/2N2Q1p/PPPBBPPP/R3K2R w KQkq - 0 1";
    let a = moves_of(fen, &t);
    let b = moves_of(fen, &t);
    assert_eq!(a, b);
}

#[test]
fn captures_record_their_victim() {
    let t = tables();
    let fen = "r3k2r/p1ppqpb1/bn2pnp1/3PN3/1p2P3/2N2Q1p/PPPBBPPP/R3K2R w KQkq - 0 1";
    let st = try_from_fen(fen).unwrap();
    for m in moves_of(fen, &t) {
        if traits_of(m) & 2 != 0 {
            let target = chess::movement::target(m);
            let victim = chess::boardstate::get_piece_at_pos(&st, target)
                .expect("a capture needs a victim");
            assert_eq!(m.0 & 0xF, victim.code() as u32);
        }
    }
}

#[test]
fn apply_then_undo_restores_the_position() {
    let t = tables();
    let fens = [
        "rnbqkbnr/pppppppp/8/8/8/8/PPPPPPPP/RNBQKBNR w KQkq - 0 1",
        "r3k2r/p1ppqpb1/bn2pnp1/3PN3/1p2P3/2N2Q1p/PPPBBPPP/R3K2R w KQkq - 0 1",
        "4k3/8/8/pP6/8/8/8/4K3 w - a6 0 1",
        "8/P7/8/8/8/8/8/k6K w - - 0 1",
        "r3k2r/p1ppqpb1/bn2pnp1/3PN3/1p2P3/2N2Q1p/PPPBBPPP/R3K2R b KQkq - 3 7",
    ];
    let lens = History;
    for fen in fens {
        let st = try_from_fen(fen).unwrap();
        for m in generate_moves(&st, &t) {
            assert!(check_move_compat(&st, m), "generated moves fit their position");
            let (after, d) = lens.apply_move(st, m);
            assert!(check_wf(&after), "applying a fitting move preserves the invariants");
            let checked = lens.apply_move_checked(st, m).expect("and is never refused");
            assert_eq!(checked.0, after);
            let back = lens.undo(after, &d);
            assert_eq!(back, st);
        }
    }
}

#[test]
fn fen_round_trip() {
    let fens = [
        "rnbqkbnr/pppppppp/8/8/8/8/PPPPPPPP/RNBQKBNR w KQkq - 0 1",
        "r3k2r/p1ppqpb1/bn2pnp1/3PN3/1p2P3/2N2Q1p/PPPBBPPP/R3K2R w KQkq - 0 1",
        "8/P7/8/8/8/8/8/k6K w - - 0 1",
        "4k3/8/8/pP6/8/8/8/4K3 w - a6 0 1",
        "4k3/8/8/8/8/8/4r3/R3K2R w KQ - 0 1",
        "8/8/8/8/8/8/8/4K2k b - - 99 4294967295",
    ];
    for fen in fens {
        let st = try_from_fen(fen).unwrap();
        assert_eq!(to_fen(&st), fen);
        let again = try_from_fen(&to_fen(&st)).unwrap();
        assert_eq!(again, st);
    }
}

#[test]
fn parsed_positions_satisfy_the_invariants() {
    let fens = [
        "rnbqkbnr/pppppppp/8/8/8/8/PPPPPPPP/RNBQKBNR w KQkq - 0 1",
        "r3k2r/p1ppqpb1/bn2pnp1/3PN3/1p2P3/2N2Q1p/PPPBBPPP/R3K2R w KQkq - 0 1",
    ];
    for fen in fens {
        let st = try_from_fen(fen).unwrap();
        assert!(check_wf(&st));
    }
}

#[test]
fn malformed_records_are_refused() {
    assert!(try_from_fen("").is_err());
    assert!(try_from_fen("rnbqkbnr/pppppppp/8/8/8/8/PPPPPPPP/RNBQKBNR").is_err());
    assert!(try_from_fen("rnbqkbnr/pppppppp/8/8/8/8/PPPPPPPP/RNBQKBNX w KQkq - 0 1").is_err());
    assert!(try_from_fen("rnbqkbnr/pppppppp/8/8/8/8/PPPPPPPP/RNBQKBNR x KQkq - 0 1").is_err());
    assert!(try_from_fen("rnbqkbnr/pppppppp/8/8/8/8/PPPPPPPP/RNBQKBNR w ZQkq - 0 1").is_err());
    assert!(try_from_fen("rnbqkbnr/pppppppp/8/8/8/8/PPPPPPPP/RNBQKBNR w KQkq a9 0 1").is_err());
    assert!(try_from_fen("rnbqkbnr/pppppppp/8/8/8/8/PPPPPPPP/RNBQKBNR w KQkq - x 1").is_err());
    assert!(try_from_fen("rnbqkbnr/pppppppp/8/8/8/8/PPPPPPPP/RNBQKBNR w KQkq - 0 0").is_err());
    assert!(try_from_fen("rnbqkbnr/pppppppp/9/8/8/8/PPPPPPPP/RNBQKBNR w KQkq - 0 1").is_err());
    assert!(try_from_fen("rnbqkbnr/pppppppp/8/8/8/8/PPPPPPPPP/RNBQKBN w KQkq - 0 1").is_err());
}

#[test]
fn serializer_emits_parseable_text() {
    let fen = "r3k2r/p1ppqpb1/bn2pnp1/3PN3/1p2P3/2N2Q1p/PPPBBPPP/R3K2R w KQkq - 0 1";
    let st = try_from_fen(fen).unwrap();
    let bytes = serialize(&st);
    let reparsed = parse(&bytes).expect("emitted text parses back");
    assert_eq!(reparsed, st);
}
