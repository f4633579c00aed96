//! A paddle-and-ball simulation, updated one tick at a time.
//!
//! The field is 1500 wide and 1000 high; the paddles sit 50 in from either
//! edge and are 150 tall. Each tick moves both paddles up to 12 steps, then
//! moves the ball one step at a time, `speed` times, bouncing it off walls
//! and paddles, scoring when it reaches an edge, and recording a bounded
//! trail of its positions.

use vstd::prelude::*;

verus! {

/// The simulation state.
pub struct PongGameState {
    pong_ball: (u32, u32),
    left_player: u32,
    right_player: u32,
    speed: u32,
    direction: (i8, i8),
    score: (u32, u32),
    trail: Vec<(u32, u32)>,
    right_player_ai_target: Option<u32>,
}

/// The mathematical shape of the simulation state.
#[verifier::ext_equal]
pub ghost struct PongModel {
    /// The ball's position.
    pub ball_x: int,
    /// The ball's position.
    pub ball_y: int,
    /// The left paddle's center height.
    pub left: int,
    /// The right paddle's center height.
    pub right: int,
    /// How many ball steps one tick takes.
    pub speed: int,
    /// The ball's direction, one unit per axis.
    pub dir_x: int,
    /// The ball's direction, one unit per axis.
    pub dir_y: int,
    /// The players' scores.
    pub score_l: int,
    /// The players' scores.
    pub score_r: int,
    /// The recent ball positions, oldest first.
    pub trail: Seq<(int, int)>,
    /// The cached landing height the right player's ai steers for.
    pub ai_target: Option<int>,
}

/// The positions of a trail, as mathematical pairs.
pub open spec fn trail_model(s: Seq<(u32, u32)>) -> Seq<(int, int)> {
    s.map_values(|p: (u32, u32)| (p.0 as int, p.1 as int))
}

/// The model of a simulation state.
pub closed spec fn pong_model(g: PongGameState) -> PongModel {
    PongModel {
        ball_x: g.pong_ball.0 as int,
        ball_y: g.pong_ball.1 as int,
        left: g.left_player as int,
        right: g.right_player as int,
        speed: g.speed as int,
        dir_x: g.direction.0 as int,
        dir_y: g.direction.1 as int,
        score_l: g.score.0 as int,
        score_r: g.score.1 as int,
        trail: trail_model(g.trail@),
        ai_target: match g.right_player_ai_target {
            Some(t) => Some(t as int),
            None => None,
        },
    }
}

/// The state invariant: the ball inside the field, the paddles clear of
/// both edges, unit directions, and a bounded trail.
pub open spec fn pong_wf(m: PongModel) -> bool {
    &&& 0 <= m.ball_x <= 1500
    &&& 0 <= m.ball_y <= 1000
    &&& 75 <= m.left <= 925
    &&& 75 <= m.right <= 925
    &&& (m.dir_x == 1 || m.dir_x == -1)
    &&& (m.dir_y == 1 || m.dir_y == -1)
    &&& m.trail.len() <= 10001
    &&& m.speed >= 0
    &&& m.score_l >= 0
    &&& m.score_r >= 0
}

/// Where a paddle ends up after one tick's worth of movement: twelve steps
/// toward the pressed direction, stopping half a paddle short of the edge,
/// and no movement when both or neither key is pressed.
pub open spec fn paddle_target(v: int, up: bool, down: bool) -> int {
    if up && !down {
        if v + 12 <= 925 {
            v + 12
        } else {
            925
        }
    } else if down && !up {
        if v - 12 >= 75 {
            v - 12
        } else {
            75
        }
    } else {
        v
    }
}

/// Whether the ball, before a step, is on the left paddle's face.
pub open spec fn left_hit(m: PongModel) -> bool {
    m.ball_x == 50 && m.left + 75 >= m.ball_y && m.left - 75 <= m.ball_y
}

/// Whether the ball, before a step, is on the right paddle's face.
pub open spec fn right_hit(m: PongModel) -> bool {
    m.ball_x == 1450 && m.right + 75 >= m.ball_y && m.right - 75 <= m.ball_y
}

/// One ball step: move one unit, score and reset at the left or right
/// edge, bounce off the top and bottom, bounce off a paddle the ball sits
/// on with a spin from where it struck, and record the position in the
/// trail, dropping its oldest entry when it is full.
pub open spec fn ball_step(m: PongModel) -> PongModel {
    let x1 = if m.dir_x > 0 && m.ball_x < 1500 {
        m.ball_x + 1
    } else if m.dir_x < 0 && m.ball_x > 0 {
        m.ball_x - 1
    } else {
        m.ball_x
    };
    let y1 = if m.dir_y > 0 && m.ball_y < 1000 {
        m.ball_y + 1
    } else if m.dir_y < 0 && m.ball_y > 0 {
        m.ball_y - 1
    } else {
        m.ball_y
    };
    let scored_l = x1 == 1500;
    let scored_r = x1 == 0;
    let x2 = if scored_l {
        1400
    } else if scored_r {
        100
    } else {
        x1
    };
    let y2 = if scored_l || scored_r {
        500
    } else {
        y1
    };
    let dx2 = if scored_l {
        -1
    } else if scored_r {
        1
    } else {
        m.dir_x
    };
    let speed2 = if scored_l || scored_r {
        10
    } else {
        m.speed
    };
    let trail2 = if scored_l || scored_r {
        Seq::<(int, int)>::empty()
    } else {
        m.trail
    };
    let dy2 = if y2 == 1000 {
        -1
    } else if y2 == 0 {
        1
    } else {
        m.dir_y
    };
    let dx3 = if left_hit(m) {
        1
    } else if right_hit(m) {
        -1
    } else {
        dx2
    };
    let dy3 = if left_hit(m) {
        if y2 > m.left + 25 {
            1
        } else if y2 < m.left - 25 {
            -1
        } else {
            dy2
        }
    } else if right_hit(m) {
        if y2 > m.right + 25 {
            1
        } else if y2 < m.right - 25 {
            -1
        } else {
            dy2
        }
    } else {
        dy2
    };
    let speed3 = if left_hit(m) || right_hit(m) {
        speed2 + 1
    } else {
        speed2
    };
    let trail3 = if trail2.len() > 10000 {
        trail2.skip(1)
    } else {
        trail2
    };
    PongModel {
        ball_x: x2,
        ball_y: y2,
        left: m.left,
        right: m.right,
        speed: speed3,
        dir_x: dx3,
        dir_y: dy3,
        score_l: if scored_l {
            m.score_l + 1
        } else {
            m.score_l
        },
        score_r: if scored_r {
            m.score_r + 1
        } else {
            m.score_r
        },
        trail: trail3.push((x2, y2)),
        ai_target: m.ai_target,
    }
}

/// `n` ball steps in a row.
pub open spec fn ball_steps(m: PongModel, n: nat) -> PongModel
    decreases n,
{
    if n == 0 {
        m
    } else {
        ball_step(ball_steps(m, (n - 1) as nat))
    }
}

/// One whole tick: both paddles move, then the ball takes as many steps as
/// the speed the tick began with.
pub open spec fn update_spec(m: PongModel, lu: bool, ld: bool, ru: bool, rd: bool) -> PongModel {
    let moved = PongModel {
        left: paddle_target(m.left, lu, ld),
        right: paddle_target(m.right, ru, rd),
        ..m
    };
    ball_steps(moved, m.speed as nat)
}

/// The height the ball will have when it reaches the right paddle's
/// column, simulated one step at a time with wall bounces.
pub open spec fn predict_y(x: int, y: int, dy: int) -> int
    decreases (if x < 1450 {
        1450 - x
    } else {
        0
    }),
{
    if x >= 1450 {
        y
    } else {
        let y1 = if dy > 0 && y < 1000 {
            y + 1
        } else if dy < 0 && y > 0 {
            y - 1
        } else {
            y
        };
        let dy1 = if y1 == 1000 {
            -1
        } else if y1 == 0 {
            1
        } else {
            dy
        };
        predict_y(x + 1, y1, dy1)
    }
}

/// A pushed position appears at the end of the trail's model.
proof fn lemma_trail_push(s: Seq<(u32, u32)>, p: (u32, u32))
    ensures
        trail_model(s.push(p)) == trail_model(s).push((p.0 as int, p.1 as int)),
{
    assert(trail_model(s.push(p)) =~= trail_model(s).push((p.0 as int, p.1 as int)));
}

/// Removing the front entry drops the front of the trail's model.
proof fn lemma_trail_remove_front(s: Seq<(u32, u32)>)
    requires
        s.len() > 0,
    ensures
        trail_model(s.remove(0)) == trail_model(s).skip(1),
{
    assert(trail_model(s.remove(0)) =~= trail_model(s).skip(1));
}

impl PongGameState {
    /// The starting state: the ball centered moving up-right, both paddles
    /// centered, speed ten, no score and no trail.
    pub fn new() -> (g: PongGameState)
        ensures
            pong_model(g) == (PongModel {
                ball_x: 750,
                ball_y: 500,
                left: 500,
                right: 500,
                speed: 10,
                dir_x: 1,
                dir_y: -1,
                score_l: 0,
                score_r: 0,
                trail: Seq::empty(),
                ai_target: None,
            }),
            pong_wf(pong_model(g)),
    {
        let g = PongGameState {
            pong_ball: (750, 500),
            left_player: 500,
            right_player: 500,
            speed: 10,
            direction: (1, -1),
            score: (0, 0),
            trail: Vec::new(),
            right_player_ai_target: None,
        };
        proof {
            assert(trail_model(g.trail@) =~= Seq::<(int, int)>::empty());
            assert(pong_model(g) =~= (PongModel {
                ball_x: 750,
                ball_y: 500,
                left: 500,
                right: 500,
                speed: 10,
                dir_x: 1,
                dir_y: -1,
                score_l: 0,
                score_r: 0,
                trail: Seq::empty(),
                ai_target: None,
            }));
        }
        g
    }

    /// Whether the ball sits on the left paddle's face.
    pub fn left_player_hit(&self) -> (r: bool)
        requires
            pong_wf(pong_model(*self)),
        ensures
            r == left_hit(pong_model(*self)),
    {
        let (x, y) = self.pong_ball;
        let paddle = self.left_player;
        if x == 50 {
            return (paddle + 75) >= y && (paddle - 75) <= y;
        }
        false
    }

    /// Whether the ball sits on the right paddle's face.
    pub fn right_player_hit(&self) -> (r: bool)
        requires
            pong_wf(pong_model(*self)),
        ensures
            r == right_hit(pong_model(*self)),
    {
        let (x, y) = self.pong_ball;
        let paddle = self.right_player;
        if x == 1450 {
            return (paddle + 75) >= y && (paddle - 75) <= y;
        }
        false
    }

    /// Advances the game by one tick.
    pub fn update(&mut self, left_up: bool, left_down: bool, right_up: bool, right_down: bool)
        requires
            pong_wf(pong_model(*old(self))),
            pong_model(*old(self)).speed <= 0x4000_0000,
            pong_model(*old(self)).score_l + pong_model(*old(self)).speed < 0xffff_ffff,
            pong_model(*old(self)).score_r + pong_model(*old(self)).speed < 0xffff_ffff,
        ensures
            pong_model(*final(self)) == update_spec(
                pong_model(*old(self)),
                left_up,
                left_down,
                right_up,
                right_down,
            ),
            pong_wf(pong_model(*final(self))),
    {
        let ghost m0 = pong_model(*old(self));
        let mut k: u32 = 0;
        while k < 12
            invariant
                k <= 12,
                m0 == pong_model(*old(self)),
                pong_wf(m0),
                self.pong_ball == old(self).pong_ball,
                self.speed == old(self).speed,
                self.direction == old(self).direction,
                self.score == old(self).score,
                self.trail@ == old(self).trail@,
                self.right_player_ai_target == old(self).right_player_ai_target,
                self.left_player as int == (if left_up && !left_down {
                    if m0.left + k <= 925 {
                        m0.left + k
                    } else {
                        925
                    }
                } else if left_down && !left_up {
                    if m0.left - k >= 75 {
                        m0.left - k
                    } else {
                        75
                    }
                } else {
                    m0.left
                }),
                self.right_player as int == (if right_up && !right_down {
                    if m0.right + k <= 925 {
                        m0.right + k
                    } else {
                        925
                    }
                } else if right_down && !right_up {
                    if m0.right - k >= 75 {
                        m0.right - k
                    } else {
                        75
                    }
                } else {
                    m0.right
                }),
            decreases 12 - k,
        {
            if left_up && !left_down {
                if self.left_player < 925 {
                    self.left_player = self.left_player + 1;
                }
            }
            if left_down && !left_up {
                if self.left_player > 75 {
                    self.left_player = self.left_player - 1;
                }
            }
            if right_up && !right_down {
                if self.right_player < 925 {
                    self.right_player = self.right_player + 1;
                }
            }
            if right_down && !right_up {
                if self.right_player > 75 {
                    self.right_player = self.right_player - 1;
                }
            }
            k = k + 1;
        }
        let ghost m1 = PongModel {
            left: paddle_target(m0.left, left_up, left_down),
            right: paddle_target(m0.right, right_up, right_down),
            ..m0
        };
        proof {
            assert(pong_model(*self) =~= m1);
        }
        let n = self.speed;
        let mut s: u32 = 0;
        while s < n
            invariant
                s <= n,
                m0 == pong_model(*old(self)),
                m1 == (PongModel {
                    left: paddle_target(m0.left, left_up, left_down),
                    right: paddle_target(m0.right, right_up, right_down),
                    ..m0
                }),
                pong_wf(m1),
                n as int == m1.speed,
                n <= 0x4000_0000,
                m1.score_l + n < 0xffff_ffff,
                m1.score_r + n < 0xffff_ffff,
                pong_model(*self) == ball_steps(m1, s as nat),
            decreases n - s,
        {
            proof {
                lemma_ball_steps_wf(m1, s as nat);
            }
            let ghost cur = ball_steps(m1, s as nat);
            let (bx, by) = self.pong_ball;
            let mut x = bx;
            let mut y = by;
            let (dx0, dy0) = self.direction;
            let mut dx = dx0;
            let mut dy = dy0;
            if dx > 0 && x < 1500 {
                x = x + 1;
            }
            if dx < 0 && x > 0 {
                x = x - 1;
            }
            if dy > 0 && y < 1000 {
                y = y + 1;
            }
            if dy < 0 && y > 0 {
                y = y - 1;
            }
            if x == 1500 {
                dx = -1;
                x = 1400;
                y = 500;
                self.speed = 10;
                self.score = (self.score.0 + 1, self.score.1);
                self.trail = Vec::new();
            }
            if x == 0 {
                dx = 1;
                x = 100;
                y = 500;
                self.speed = 10;
                self.score = (self.score.0, self.score.1 + 1);
                self.trail = Vec::new();
            }
            if y == 1000 {
                dy = -1;
            }
            if y == 0 {
                dy = 1;
            }
            if self.left_player_hit() {
                dx = 1;
                if y > (self.left_player + 25) {
                    dy = 1;
                }
                if y < (self.left_player - 25) {
                    dy = -1;
                }
                self.speed = self.speed + 1;
            }
            if self.right_player_hit() {
                dx = -1;
                if y > (self.right_player + 25) {
                    dy = 1;
                }
                if y < (self.right_player - 25) {
                    dy = -1;
                }
                self.speed = self.speed + 1;
            }
            self.pong_ball = (x, y);
            let ghost pre_trim = self.trail@;
            if self.trail.len() > 10000 {
                self.trail.remove(0);
                proof {
                    lemma_trail_remove_front(pre_trim);
                }
            }
            let ghost pre_push = self.trail@;
            self.trail.push(self.pong_ball);
            self.direction = (dx, dy);
            proof {
                lemma_trail_push(pre_push, (x, y));
                assert(ball_steps(m1, (s + 1) as nat) == ball_step(cur));
                assert(trail_model(Seq::<(u32, u32)>::empty()) =~= Seq::<(int, int)>::empty());
                assert(pong_model(*self) =~= ball_step(cur));
            }
            s = s + 1;
        }
        proof {
            lemma_ball_steps_wf(m1, n as nat);
            assert(pong_model(*self) == update_spec(m0, left_up, left_down, right_up, right_down));
        }
    }

    /// The height the right paddle's simple opponent steers for: where the
    /// ball will arrive, predicted once and cached while the ball travels
    /// right, and the field's middle while it travels left.
    pub fn right_player_ai(&mut self) -> (r: u32)
        requires
            pong_wf(pong_model(*old(self))),
        ensures
            pong_wf(pong_model(*final(self))),
            pong_model(*old(self)).dir_x > 0 ==> (match pong_model(*old(self)).ai_target {
                Some(t) => r as int == t && pong_model(*final(self)) == pong_model(*old(self)),
                None => r as int == predict_y(
                    pong_model(*old(self)).ball_x,
                    pong_model(*old(self)).ball_y,
                    pong_model(*old(self)).dir_y,
                ) && pong_model(*final(self)) == (PongModel {
                    ai_target: Some(r as int),
                    ..pong_model(*old(self))
                }),
            }),
            pong_model(*old(self)).dir_x <= 0 ==> r == 500 && pong_model(*final(self)) == (
            PongModel { ai_target: None, ..pong_model(*old(self)) }),
    {
        let ghost m0 = pong_model(*old(self));
        let (bx, by) = self.pong_ball;
        let (dx, dy0) = self.direction;
        if dx > 0 {
            match self.right_player_ai_target {
                Some(t) => {
                    proof {
                        assert(pong_model(*self) =~= m0);
                    }
                    return t;
                },
                None => {
                    let mut x = bx;
                    let mut y = by;
                    let mut dy = dy0;
                    while x < 1450
                        invariant
                            0 <= y <= 1000,
                            x <= 1500,
                            dy == 1 || dy == -1,
                            predict_y(x as int, y as int, dy as int) == predict_y(
                                m0.ball_x,
                                m0.ball_y,
                                m0.dir_y,
                            ),
                        decreases 1450 - x,
                    {
                        x = x + 1;
                        if dy > 0 && y < 1000 {
                            y = y + 1;
                        }
                        if dy < 0 && y > 0 {
                            y = y - 1;
                        }
                        if y == 1000 {
                            dy = -1;
                        }
                        if y == 0 {
                            dy = 1;
                        }
                    }
                    self.right_player_ai_target = Some(y);
                    proof {
                        assert(pong_model(*self) =~= (PongModel {
                            ai_target: Some(y as int),
                            ..m0
                        }));
                    }
                    return y;
                },
            }
        } else {
            self.right_player_ai_target = None;
            proof {
                assert(pong_model(*self) =~= (PongModel { ai_target: None, ..m0 }));
            }
            return 500;
        }
    }

    /// The left paddle's center height.
    pub fn left_player(&self) -> (r: u32)
        ensures
            r as int == pong_model(*self).left,
    {
        self.left_player
    }

    /// The right paddle's center height.
    pub fn right_player(&self) -> (r: u32)
        ensures
            r as int == pong_model(*self).right,
    {
        self.right_player
    }

    /// The ball's position.
    pub fn pong_ball(&self) -> (r: (u32, u32))
        ensures
            r.0 as int == pong_model(*self).ball_x,
            r.1 as int == pong_model(*self).ball_y,
    {
        self.pong_ball
    }

    /// How many ball steps the next tick will take.
    pub fn speed(&self) -> (r: u32)
        ensures
            r as int == pong_model(*self).speed,
    {
        self.speed
    }

    /// The players' scores, left then right.
    pub fn score(&self) -> (r: (u32, u32))
        ensures
            r.0 as int == pong_model(*self).score_l,
            r.1 as int == pong_model(*self).score_r,
    {
        self.score
    }

    /// The horizontal coordinates of the trail, oldest first.
    pub fn pong_trail_x(&self) -> (r: Vec<u32>)
        ensures
            r@.len() == pong_model(*self).trail.len(),
            forall|i: int|
                0 <= i < r@.len() ==> r@[i] as int == pong_model(*self).trail[i].0,
    {
        let mut r: Vec<u32> = Vec::new();
        let n = self.trail.len();
        let mut i: usize = 0;
        while i < n
            invariant
                n == self.trail@.len(),
                i <= n,
                r@.len() == i,
                forall|j: int| 0 <= j < i ==> r@[j] == self.trail@[j].0,
            decreases n - i,
        {
            r.push(self.trail[i].0);
            i = i + 1;
        }
        r
    }

    /// The vertical coordinates of the trail, oldest first.
    pub fn pong_trail_y(&self) -> (r: Vec<u32>)
        ensures
            r@.len() == pong_model(*self).trail.len(),
            forall|i: int|
                0 <= i < r@.len() ==> r@[i] as int == pong_model(*self).trail[i].1,
    {
        let mut r: Vec<u32> = Vec::new();
        let n = self.trail.len();
        let mut i: usize = 0;
        while i < n
            invariant
                n == self.trail@.len(),
                i <= n,
                r@.len() == i,
                forall|j: int| 0 <= j < i ==> r@[j] == self.trail@[j].1,
            decreases n - i,
        {
            r.push(self.trail[i].1);
            i = i + 1;
        }
        r
    }
}

/// A ball step keeps the invariant, raises each score and the speed by at
/// most one, and moves the ball somewhere inside the field.
pub proof fn lemma_ball_step_wf(m: PongModel)
    requires
        pong_wf(m),
    ensures
        pong_wf(ball_step(m)),
        ball_step(m).score_l <= m.score_l + 1,
        ball_step(m).score_r <= m.score_r + 1,
        ball_step(m).speed <= m.speed + 1 || ball_step(m).speed <= 11,
        ball_step(m).speed >= 0,
{
}

/// Iterated ball steps keep the invariant and raise each score and the
/// speed by at most the number of steps.
pub proof fn lemma_ball_steps_wf(m: PongModel, n: nat)
    requires
        pong_wf(m),
    ensures
        pong_wf(ball_steps(m, n)),
        ball_steps(m, n).score_l <= m.score_l + n,
        ball_steps(m, n).score_r <= m.score_r + n,
        ball_steps(m, n).speed <= m.speed + n || ball_steps(m, n).speed <= 11 + n,
    decreases n,
{
    if n > 0 {
        lemma_ball_steps_wf(m, (n - 1) as nat);
        lemma_ball_step_wf(ball_steps(m, (n - 1) as nat));
    }
}

} // verus!
