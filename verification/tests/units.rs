use chess::bitboard::Bitboard;
use chess::castling::{castling_rights_from_bits, Castling, CastlingRights};
use chess::colour::Colour;
use chess::delta::DeltaBuilder;
use chess::movement::{capture, piece, source, target, MoveBuilder, MoveTrait};
use chess::pieces::{from_colour_kind, get_colour, get_kind, try_from_u8, Kind, Piece};
use chess::position::Position;
use chess::xor_rand::XorRand;

#[test]
fn bitboard_set_and_pop() {
    let b = Bitboard::new().set_bit(Position::E4);
    assert!(b.is_occupied(Position::E4));
    assert!(!b.is_occupied(Position::E5));
    assert_eq!(b.count_bits(), 1);
    let b2 = b.pop_bit(Position::E4);
    assert!(b2.is_empty());
    let b3 = b.pop_bit(Position::A1);
    assert_eq!(b3, b);
}

#[test]
fn bitboard_mutators() {
    let mut b = Bitboard::new();
    b.mutate_set_bit(Position::C7);
    b.mutate_set_bit(Position::H1);
    assert_eq!(b.count_bits(), 2);
    assert_eq!(b.get_ls1b(), Some(Position::C7));
    b.mutate_pop_bit(Position::C7);
    assert_eq!(b.get_ls1b(), Some(Position::H1));
    b.mutate_pop_bit(Position::H1);
    assert_eq!(b.get_ls1b(), None);
}

#[test]
fn bitboard_set_occupancy_scatters_the_index() {
    let mask = Bitboard(0b1011);
    let mut occ = Bitboard::new();
    occ.set_occupancy(0b101, &mask);
    assert_eq!(occ.0, 0b1001);
    let mut occ2 = Bitboard::new();
    occ2.set_occupancy(0b111, &mask);
    assert_eq!(occ2.0, 0b1011);
}

#[test]
fn position_coordinates() {
    assert_eq!(Position::A8.index(), 0);
    assert_eq!(Position::H1.index(), 63);
    assert_eq!(Position::E4.rank(), 3);
    assert_eq!(Position::E4.file(), 4);
    assert_eq!(Position::from_u64(36), Some(Position::E4));
    assert_eq!(Position::from_u64(64), None);
    assert_eq!(Position::from_coords(0, 0), Some(Position::A1));
    assert_eq!(Position::from_coords(7, 7), Some(Position::H8));
    assert_eq!(Position::from_chars('e', '4'), Some(Position::E4));
    assert_eq!(Position::from_chars('i', '4'), None);
    assert_eq!(Position::E4.change_rank(1), Some(Position::E5));
    assert_eq!(Position::E4.change_rank(-3), Some(Position::E1));
    assert_eq!(Position::E1.change_rank(-1), None);
    assert_eq!(Position::E4.add_file(3), Some(Position::H4));
    assert_eq!(Position::A4.add_file(-1), None);
}

#[test]
fn colour_opposition() {
    assert_eq!(Colour::White.opp(), Colour::Black);
    assert_eq!(Colour::Black.opp(), Colour::White);
}

#[test]
fn piece_codes_round_trip() {
    for c in [Colour::White, Colour::Black] {
        for k in [Kind::Pawn, Kind::Knight, Kind::Bishop, Kind::Rook, Kind::Queen, Kind::King] {
            let p = from_colour_kind(&c, k);
            assert_eq!(get_colour(&p), c);
            assert_eq!(get_kind(&p), k);
            assert_eq!(try_from_u8(p.code()), Ok(Some(p)));
        }
    }
    assert_eq!(try_from_u8(0), Ok(None));
    assert!(try_from_u8(7).is_err());
    assert!(try_from_u8(8).is_err());
}

#[test]
fn castling_rights_mask() {
    let mut cr = CastlingRights::new();
    assert_eq!(cr.0, 0);
    cr.add_castling_right(Castling::WK);
    cr.add_castling_right(Castling::BQ);
    assert_eq!(cr.0, 9);
    cr.toggle_castling_rights(Castling::WK);
    assert_eq!(cr.0, 8);
    cr.set_castling_rights(&[Castling::WK, Castling::WQ, Castling::BK, Castling::BQ]);
    assert_eq!(cr.0, 15);
    let listed = castling_rights_from_bits(CastlingRights(0b0101));
    assert_eq!(listed, vec![Castling::WK, Castling::BK]);
    assert_eq!(Castling::WQ.get_castlings_bits(), 2);
    assert_eq!(Castling::WK.is_kingside(), Some(true));
    assert_eq!(Castling::BQ.is_kingside(), Some(false));
    assert_eq!(Castling::Neither.is_kingside(), None);
}

#[test]
fn move_builder_packs_every_field() {
    let p = Piece(Colour::White, Kind::Knight);
    let victim = Piece(Colour::Black, Kind::Rook);
    let m = MoveBuilder::new()
        .set_traits(&[MoveTrait::Capture, MoveTrait::Check])
        .set_piece(p)
        .set_source(Position::G1)
        .set_target(Position::F3)
        .captures(victim)
        .build();
    assert_eq!((m.0 >> 20) & 0xFFF, 6);
    assert_eq!(piece(m), Ok(Some(p)));
    assert_eq!(source(m), Position::G1);
    assert_eq!(target(m), Position::F3);
    assert_eq!(capture(m), Ok(Some(victim)));
    let listed = chess::movement::traits(m);
    assert_eq!(listed, vec![MoveTrait::Capture, MoveTrait::Check]);
}

#[test]
fn move_trait_bits() {
    assert_eq!(MoveTrait::Quiet.bit(), 1);
    assert_eq!(MoveTrait::Capture.bit(), 2);
    assert_eq!(MoveTrait::Check.bit(), 4);
    assert_eq!(MoveTrait::Promotion.bit(), 8);
    assert_eq!(MoveTrait::Enpassant.bit(), 16);
    assert_eq!(MoveTrait::Castle.bit(), 32);
}

#[test]
fn with_traits_replaces_the_flag_field() {
    let mut m = MoveBuilder::new().set_traits(&[MoveTrait::Quiet]).set_source(
        Position::E2,
    ).set_target(Position::E4).build();
    m.with_traits(&[MoveTrait::Capture]);
    assert_eq!((m.0 >> 20) & 0xFFF, 2);
    assert_eq!(target(m), Position::E4);
}

#[test]
fn delta_builder_packs_every_field() {
    let mv = MoveBuilder::new()
        .set_traits(&[MoveTrait::Capture])
        .set_piece(Piece(Colour::White, Kind::Bishop))
        .set_source(Position::C1)
        .set_target(Position::G5)
        .captures(Piece(Colour::Black, Kind::Knight))
        .build();
    let d = DeltaBuilder::new()
        .en_passant(true)
        .ep_square(Position::E6)
        .promotion(false)
        .castling(CastlingRights(0b0011))
        .set_movement_from_move(mv)
        .half_moves(17)
        .build();
    assert!(chess::delta::is_en_passant(d));
    assert!(!chess::delta::is_promotion(d));
    assert_eq!(chess::delta::ep_square_before(d), Some(Position::E6));
    assert_eq!(
        chess::delta::castling(d),
        vec![Castling::WK, Castling::WQ]
    );
    assert_eq!(
        chess::delta::moved_piece(d),
        Ok(Some(Piece(Colour::White, Kind::Bishop)))
    );
    assert_eq!(chess::delta::source(d), Position::C1);
    assert_eq!(chess::delta::target(d), Position::G5);
    assert_eq!(
        chess::delta::captured(d),
        Ok(Some(Piece(Colour::Black, Kind::Knight)))
    );
    assert_eq!(d.1, 17);
}

#[test]
fn xorshift_is_reproducible() {
    let mut a = XorRand::new();
    let mut b = XorRand::new();
    let xs: Vec<u32> = (0..4).map(|_| a.rand32()).collect();
    let ys: Vec<u32> = (0..4).map(|_| b.rand32()).collect();
    assert_eq!(xs, ys);
    assert_eq!(xs[0], 1741896308);
    let mut c = XorRand::new();
    let mut d = XorRand::new();
    assert_eq!(c.gen_magic_number(), d.gen_magic_number());
}

#[test]
fn masks_match_their_movement_rules() {
    let knight = chess::attack_masks::mask_knight_attacks(Position::E4);
    assert_eq!(knight.count_bits(), 8);
    let corner_knight = chess::attack_masks::mask_knight_attacks(Position::A1);
    assert_eq!(corner_knight.count_bits(), 2);
    let king = chess::attack_masks::mask_king_attacks(Position::A8);
    assert_eq!(king.count_bits(), 3);
    let wp = chess::attack_masks::mask_pawn_attacks(Position::A2, &Colour::White);
    assert!(wp.is_occupied(Position::B3));
    assert_eq!(wp.count_bits(), 1);
    let bp = chess::attack_masks::mask_pawn_attacks(Position::E5, &Colour::Black);
    assert!(bp.is_occupied(Position::D4) && bp.is_occupied(Position::F4));
    let bm = chess::attack_masks::mask_bishop_attacks(Position::A1);
    assert_eq!(bm.count_bits(), 6);
    let rm = chess::attack_masks::mask_rook_attacks(Position::A1);
    assert_eq!(rm.count_bits(), 12);
}

#[test]
fn starting_position_state() {
    let st = chess::boardstate::State::new();
    assert_eq!(st.material_layer.0[0].0, 0x00FF000000000000);
    assert_eq!(st.occupancy_layer.0[0].0, 0xFFFF000000000000);
    assert_eq!(st.occupancy_layer.0[1].0, 0x000000000000FFFF);
    assert_eq!(st.side_to_move, Colour::White);
    assert!(chess::move_lens::check_wf(&st));
    assert_eq!(
        chess::boardstate::get_piece_at_pos(&st, Position::E1),
        Some(Piece(Colour::White, Kind::King))
    );
    assert_eq!(chess::boardstate::get_piece_at_pos(&st, Position::E4), None);
}

#[test]
fn find_magic_validates_or_gives_up() {
    let m = chess::magic_numbers::find_magic(Position::E4, 12, false);
    if m != 0 {
        assert!(chess::magic_numbers::build_slider_table(Position::E4, false, m, 12).is_some());
    }
}
