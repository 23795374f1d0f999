//! What the boxes held before a projection round has no influence on its contacts.

use crate::attachment::point_of;
use crate::balls::{
    ball_pairs_from, ball_pass, ball_passes, balls_net_contacts, chunk_contacts, chunk_end,
    chunks_contacts, lemma_ball_pairs_move, lemma_chunks_contacts_move, net_body_contact,
    net_body_total, rebuilt_maxima, rebuilt_minima, NetContact,
};
use crate::body::{hub_center, AffineBody, ControlPoints};
use crate::constants::{CONTACT_PASSES, CONTACT_PROXY_CHUNK_SIZE};
use crate::joints::chunk_total;
use crate::scalar::Scalar;
use crate::vector::Vec3;
use vstd::prelude::*;

verus! {

/// Whether two lists of corners agree on the chunks of a net.
pub open spec fn corners_agree<S: Scalar>(
    first: Seq<Vec3<S>>,
    second: Seq<Vec3<S>>,
    chunks: int,
) -> bool {
    &&& chunks <= first.len()
    &&& chunks <= second.len()
    &&& forall|c: int| 0 <= c < chunks ==> (#[trigger] first[c]) == second[c]
}

/// Whether two contacts in progress differ at most in boxes that belong to no chunk.
spec fn contacts_agree<S: Scalar>(
    first: NetContact<S>,
    second: NetContact<S>,
    chunks: int,
) -> bool {
    &&& first.bodies == second.bodies
    &&& first.sphere == second.sphere
    &&& corners_agree(first.chunk_min, second.chunk_min, chunks)
    &&& corners_agree(first.chunk_max, second.chunk_max, chunks)
}

proof fn lemma_chunk_agrees<S: Scalar>(
    first: NetContact<S>,
    second: NetContact<S>,
    previous: Seq<ControlPoints<S>>,
    ball: usize,
    chunk: int,
    body: int,
    end: int,
    chunks: int,
)
    requires
        contacts_agree(first, second, chunks),
        0 <= chunk < chunks,
    ensures
        contacts_agree(
            chunk_contacts(first, previous, ball, chunk, body, end),
            chunk_contacts(second, previous, ball, chunk, body, end),
            chunks,
        ),
    decreases end - body,
{
    if body < end {
        let first_next = net_body_contact(first, previous, ball, chunk, body as usize);
        let second_next = net_body_contact(second, previous, ball, chunk, body as usize);
        assert(first.chunk_min[chunk] == second.chunk_min[chunk]);
        assert(first.chunk_max[chunk] == second.chunk_max[chunk]);
        assert forall|c: int| 0 <= c < chunks implies (#[trigger] first_next.chunk_min[c])
            == second_next.chunk_min[c] by {
            assert(first.chunk_min[c] == second.chunk_min[c]);
        }
        assert forall|c: int| 0 <= c < chunks implies (#[trigger] first_next.chunk_max[c])
            == second_next.chunk_max[c] by {
            assert(first.chunk_max[c] == second.chunk_max[c]);
        }
        lemma_chunk_agrees(
            first_next,
            second_next,
            previous,
            ball,
            chunk,
            body + 1,
            end,
            chunks,
        );
    }
}

proof fn lemma_chunks_agree<S: Scalar>(
    first: NetContact<S>,
    second: NetContact<S>,
    previous: Seq<ControlPoints<S>>,
    ball: usize,
    chunk: int,
    net: int,
)
    requires
        contacts_agree(first, second, chunk_total(net)),
        0 <= chunk,
    ensures
        contacts_agree(
            chunks_contacts(first, previous, ball, chunk, net),
            chunks_contacts(second, previous, ball, chunk, net),
            chunk_total(net),
        ),
    decreases chunk_total(net) - chunk,
{
    if chunk < chunk_total(net) {
        let start = chunk * CONTACT_PROXY_CHUNK_SIZE;
        let end = chunk_end(chunk, net);
        assert(first.chunk_min[chunk] == second.chunk_min[chunk]);
        assert(first.chunk_max[chunk] == second.chunk_max[chunk]);
        lemma_chunk_agrees(
            first,
            second,
            previous,
            ball,
            chunk,
            start,
            end,
            chunk_total(net),
        );
        lemma_chunks_agree(first, second, previous, ball, chunk + 1, net);
        lemma_chunks_agree(
            chunk_contacts(first, previous, ball, chunk, start, end),
            chunk_contacts(second, previous, ball, chunk, start, end),
            previous,
            ball,
            chunk + 1,
            net,
        );
    }
}

/// Whether the balls and the boxes of a net are there.
spec fn boxes_there<S: Scalar>(
    bodies: Seq<AffineBody<S>>,
    balls: Seq<usize>,
    chunk_min: Seq<Vec3<S>>,
    chunk_max: Seq<Vec3<S>>,
) -> bool {
    &&& bodies.len() <= usize::MAX
    &&& chunk_total(net_body_total(balls, bodies.len())) <= chunk_min.len()
    &&& chunk_total(net_body_total(balls, bodies.len())) <= chunk_max.len()
    &&& forall|i: int| 0 <= i < balls.len() ==> (#[trigger] balls[i]) < bodies.len()
}

proof fn lemma_balls_agree<S: Scalar>(
    bodies: Seq<AffineBody<S>>,
    first: (Seq<Vec3<S>>, Seq<Vec3<S>>),
    second: (Seq<Vec3<S>>, Seq<Vec3<S>>),
    previous: Seq<ControlPoints<S>>,
    balls: Seq<usize>,
    number: int,
)
    requires
        boxes_there(bodies, balls, first.0, first.1),
        0 <= number,
        corners_agree(first.0, second.0, chunk_total(net_body_total(balls, bodies.len()))),
        corners_agree(first.1, second.1, chunk_total(net_body_total(balls, bodies.len()))),
    ensures
        ({
            let chunks = chunk_total(net_body_total(balls, bodies.len()));
            let one = balls_net_contacts(bodies, first.0, first.1, previous, balls, number);
            let two = balls_net_contacts(bodies, second.0, second.1, previous, balls, number);
            &&& one.0 == two.0
            &&& one.0.len() == bodies.len()
            &&& corners_agree(one.1, two.1, chunks)
            &&& corners_agree(one.2, two.2, chunks)
        }),
    decreases balls.len() - number,
{
    if number < balls.len() {
        let net = net_body_total(balls, bodies.len());
        let ball = balls[number];
        let sphere = point_of(bodies[ball as int], hub_center());
        let one = NetContact { bodies, chunk_min: first.0, chunk_max: first.1, sphere };
        let two = NetContact { bodies, chunk_min: second.0, chunk_max: second.1, sphere };
        lemma_chunks_contacts_move(one, previous, ball, 0, net);
        lemma_chunks_agree(one, two, previous, ball, 0, net);
        let one_next = chunks_contacts(one, previous, ball, 0, net);
        let two_next = chunks_contacts(two, previous, ball, 0, net);
        lemma_balls_agree(
            one_next.bodies,
            (one_next.chunk_min, one_next.chunk_max),
            (two_next.chunk_min, two_next.chunk_max),
            previous,
            balls,
            number + 1,
        );
    }
}

proof fn lemma_passes_agree<S: Scalar>(
    bodies: Seq<AffineBody<S>>,
    first: (Seq<Vec3<S>>, Seq<Vec3<S>>),
    second: (Seq<Vec3<S>>, Seq<Vec3<S>>),
    previous: Seq<ControlPoints<S>>,
    balls: Seq<usize>,
    pass: int,
)
    requires
        boxes_there(bodies, balls, first.0, first.1),
        boxes_there(bodies, balls, second.0, second.1),
        0 <= pass,
        pass == 0 || {
            let chunks = chunk_total(net_body_total(balls, bodies.len()));
            corners_agree(first.0, second.0, chunks) && corners_agree(first.1, second.1, chunks)
        },
    ensures
        ball_passes(bodies, first.0, first.1, previous, balls, pass).0 == ball_passes(
            bodies,
            second.0,
            second.1,
            previous,
            balls,
            pass,
        ).0,
    decreases CONTACT_PASSES - pass,
{
    if pass < CONTACT_PASSES {
        let paired = ball_pairs_from(bodies, previous, balls, 0, 1);
        lemma_ball_pairs_move(bodies, previous, balls, 0, 1);
        let (one, two) = if pass == 0 {
            (
                (rebuilt_minima(paired, balls, first.0), rebuilt_maxima(paired, balls, first.1)),
                (rebuilt_minima(paired, balls, second.0), rebuilt_maxima(paired, balls, second.1)),
            )
        } else {
            (first, second)
        };
        lemma_balls_agree(paired, one, two, previous, balls, 0);
        let one_next = ball_pass(bodies, first.0, first.1, previous, balls, pass == 0);
        let two_next = ball_pass(bodies, second.0, second.1, previous, balls, pass == 0);
        lemma_passes_agree(
            one_next.0,
            (one_next.1, one_next.2),
            (two_next.1, two_next.2),
            previous,
            balls,
            pass + 1,
        );
    }
}

/// The passes of the ball contacts do not depend on what the boxes held before them.
pub proof fn lemma_boxes_start_anew<S: Scalar>(
    bodies: Seq<AffineBody<S>>,
    first_min: Seq<Vec3<S>>,
    first_max: Seq<Vec3<S>>,
    second_min: Seq<Vec3<S>>,
    second_max: Seq<Vec3<S>>,
    previous: Seq<ControlPoints<S>>,
    balls: Seq<usize>,
)
    requires
        bodies.len() <= usize::MAX,
        forall|i: int| 0 <= i < balls.len() ==> (#[trigger] balls[i]) < bodies.len(),
        chunk_total(net_body_total(balls, bodies.len())) <= first_min.len(),
        chunk_total(net_body_total(balls, bodies.len())) <= first_max.len(),
        chunk_total(net_body_total(balls, bodies.len())) <= second_min.len(),
        chunk_total(net_body_total(balls, bodies.len())) <= second_max.len(),
    ensures
        ball_passes(bodies, first_min, first_max, previous, balls, 0).0 == ball_passes(
            bodies,
            second_min,
            second_max,
            previous,
            balls,
            0,
        ).0,
{
    lemma_passes_agree(
        bodies,
        (first_min, first_max),
        (second_min, second_max),
        previous,
        balls,
        0,
    );
}

} // verus!
