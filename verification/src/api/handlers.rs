//! What the HTTP API's stateless routes answer, request body in, response
//! body out.

use vstd::prelude::*;

use super::types::{
    ErrorResponse, FenValidateRequest, FenValidateResponse, HealthResponse, LegalMovesRequest,
    LegalMovesResponse,
};
use crate::board::movegen::movable;
use crate::board::{hfen_board, hfen_start_ok, Board};
use crate::core_types::piece_move::{move_text, HyperMove};
use crate::notation::texts_of;

verus! {

/// The UCI texts of a list of moves.
pub open spec fn move_texts(l: Seq<HyperMove>) -> Seq<Seq<char>> {
    l.map_values(|m: HyperMove| move_text(m))
}

/// Liveness probe: always answers `"ok"`.
pub fn health() -> (r: HealthResponse)
    ensures
        r.status@ == "ok"@,
{
    HealthResponse { status: "ok" }
}

/// Reports whether a HFEN(-I) string describes a position; a rejected one
/// carries the parser's message.
pub fn fen_validate(req: &FenValidateRequest) -> (r: FenValidateResponse)
    ensures
        r.valid == hfen_start_ok(req.fen@),
        r.error is Some <==> !r.valid,
{
    match Board::from_hfen(req.fen.as_str()) {
        Ok(_) => FenValidateResponse { valid: true, error: None },
        Err(e) => FenValidateResponse { valid: false, error: Some(e) },
    }
}

/// Every legal move of the given position, in plain UCI notation, in the
/// order the move generator lists them; a position that does not parse is
/// refused with the parser's message.
pub fn legal_moves(req: &LegalMovesRequest) -> (r: Result<LegalMovesResponse, ErrorResponse>)
    ensures
        r is Ok <==> hfen_start_ok(req.fen@),
        r matches Ok(resp) ==> exists|b: Board, l: Seq<HyperMove>|
            #![trigger hfen_board(req.fen@, b), move_texts(l)]
            {
                &&& hfen_board(req.fen@, b)
                &&& forall|k: int| 0 <= k < l.len() ==> movable(b, #[trigger] l[k])
                &&& forall|m: HyperMove| movable(b, m) ==> #[trigger] l.contains(m)
                &&& l.no_duplicates()
                &&& texts_of(resp.moves@) == move_texts(l)
            },
{
    let board = match Board::from_hfen(req.fen.as_str()) {
        Ok(b) => b,
        Err(e) => {
            return Err(ErrorResponse { error: e });
        },
    };
    let list = board.generate_moves();
    let ms = list.to_vec();
    let mut moves: Vec<String> = Vec::new();
    let mut i: usize = 0;
    while i < ms.len()
        invariant
            i <= ms@.len(),
            texts_of(moves@) == move_texts(ms@.take(i as int)),
        decreases ms@.len() - i,
    {
        let ghost before = moves@;
        moves.push(ms[i].stringify());
        assert(texts_of(moves@) =~= texts_of(before).push(move_text(ms@[i as int])));
        assert(move_texts(ms@.take(i + 1)) =~= move_texts(ms@.take(i as int)).push(
            move_text(ms@[i as int]),
        ));
        i += 1;
    }
    assert(ms@.take(ms@.len() as int) =~= ms@);
    assert(hfen_board(req.fen@, board));
    assert(move_texts(ms@) == texts_of(moves@));
    Ok(LegalMovesResponse { moves })
}

} // verus!
