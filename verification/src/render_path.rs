//! The picture of a game, as the text of one vector path.
//!
//! A picture is a list of polylines. Each polyline is written as a move to
//! its first point and a line to each further point: `M1.00 2.50 L3.00 4.00 `.
//! Coordinates are written in units with two decimals, rounded to the
//! nearest hundredth, a tie to the even one.
//! A polyline that leaves the field is drawn once more, shifted by the size
//! of the field, so that it comes back in on the other side.

use crate::config::FIELD_MAX;
use crate::entity::{lemma_turned_within, Asteroid, Bullet, Explosion, SIZE_MAX};
use crate::fixed::{abs, lemma_mul_abs_le, lemma_mul_fx_le, mul_fx, trunc_div, ONE, HALF_PI, TAU};
use crate::game::{Game, World, LIVES_MAX};
use crate::geom::COORD_MAX;
use crate::input::InputIndex;
use crate::math::Vec2D;
use crate::ship::Ship;
use vstd::prelude::*;
use vstd::string::StringExecFns;

verus! {

/// Largest magnitude of a coordinate that can be shifted by the size of a
/// field: two to the power 60.
pub const DRAW_MAX: i64 = 0x1000_0000_0000_0000;

/// Largest magnitude of a coordinate of an outline before it is scaled,
/// turned and moved into place: 256 units.
pub const OUTLINE_MAX: i64 = 0x100_0000;

/// Scale of the outline of the ship.
pub const SHIP_SCALE: i64 = 131072;

/// Length of the tail of a bullet: 5 units.
pub const BULLET_TAIL: i64 = 327680;

/// Distance between two of the ships that stand for the lives: 40 units.
pub const LIFE_STEP: i64 = 2621440;

/// Height at which the lives are drawn: 50 units.
pub const LIFE_HEIGHT: i64 = 3276800;

/// Radius that the sparks of an explosion reach at its end: 30 units.
pub const EXPLOSION_RADIUS: i64 = 1966080;

/// Number of sparks of an explosion.
pub const EXPLOSION_PARTICLES: usize = 11;

/// Length of a spark at the start of an explosion: 10 units. It doubles
/// until the end.
pub const EXPLOSION_PARTICLE_LENGTH: i64 = 655360;

/// Scale of the digits of the score.
pub const DIGIT_SCALE: i64 = 655360;

/// The lowest digit of the score stands this many glyph units from the left.
pub const DIGIT_RIGHTMOST: i64 = 120;

/// Each higher digit stands this many glyph units further left.
pub const DIGIT_STEP: i64 = 3;

/// Height at which the score is drawn, in glyph units.
pub const DIGIT_HEIGHT: i64 = 5;

/// The character of a decimal digit.
pub open spec fn digit_char(d: int) -> char {
    if d == 0 {
        '0'
    } else if d == 1 {
        '1'
    } else if d == 2 {
        '2'
    } else if d == 3 {
        '3'
    } else if d == 4 {
        '4'
    } else if d == 5 {
        '5'
    } else if d == 6 {
        '6'
    } else if d == 7 {
        '7'
    } else if d == 8 {
        '8'
    } else {
        '9'
    }
}

/// The decimal digits of `n`, the highest first, without leading zeros.
pub open spec fn digits_text(n: nat) -> Seq<char>
    decreases n,
{
    if n < 10 {
        seq![digit_char(n as int)]
    } else {
        digits_text(n / 10).push(digit_char((n % 10) as int))
    }
}

/// The magnitude of a raw value in hundredths of a unit, rounded to the
/// nearest hundredth; a value half way between two goes to the even one.
pub open spec fn hundredths(v: int) -> int {
    let scaled = abs(v) * 100;
    let whole = scaled / (ONE as int);
    let rest = scaled % (ONE as int);
    if rest > ONE / 2 || (rest == ONE / 2 && whole % 2 == 1) {
        whole + 1
    } else {
        whole
    }
}

/// A raw value written in units with two decimals. A negative value keeps
/// its sign where it is rounded to zero.
pub open spec fn number_text(v: int) -> Seq<char> {
    let h = hundredths(v);
    (if v < 0 {
        seq!['-']
    } else {
        Seq::<char>::empty()
    }) + digits_text((h / 100) as nat) + seq!['.', digit_char((h / 10) % 10), digit_char(h % 10)]
}

/// One step of a polyline: `L` and the point where `line` is set, `M` and
/// the point otherwise.
pub open spec fn point_text(line: bool, point: Vec2D) -> Seq<char> {
    seq![if line {
        'L'
    } else {
        'M'
    }] + number_text(point.x as int) + seq![' '] + number_text(point.y as int) + seq![' ']
}

/// The first `n` points of a polyline.
pub open spec fn points_text(points: Seq<Vec2D>, n: int) -> Seq<char>
    decreases n,
{
    if n <= 0 {
        Seq::<char>::empty()
    } else {
        points_text(points, n - 1) + point_text(n - 1 > 0, points[n - 1])
    }
}

/// A polyline.
pub open spec fn polyline_text(points: Seq<Vec2D>) -> Seq<char> {
    points_text(points, points.len() as int)
}

/// By how many fields a polyline has to be shifted along one axis to come
/// back in: -1 where the first of its points from `from` on that lies
/// outside `0 .. extent` lies at or beyond `extent`, 1 where it lies below
/// zero, 0 where no point lies outside.
pub open spec fn wrap_shift(points: Seq<Vec2D>, extent: int, x: bool, from: int) -> int
    decreases points.len() - from,
{
    if from < 0 || from >= points.len() {
        0
    } else {
        let at = if x {
            points[from].x
        } else {
            points[from].y
        };
        if at >= extent {
            -1
        } else if at < 0 {
            1
        } else {
            wrap_shift(points, extent, x, from + 1)
        }
    }
}

/// The shift of a point by `by`.
pub open spec fn shift_by(by: Vec2D) -> spec_fn(Vec2D) -> Vec2D {
    |p: Vec2D| p.plus(by)
}

/// A polyline with its copies on the other sides of the field: the copy
/// across the corner and the copy across the left or right edge where the
/// polyline leaves the field along the first axis, the copy across the upper
/// or lower edge where it leaves along the second, then the polyline itself.
pub open spec fn wrapping_text(points: Seq<Vec2D>, field: Vec2D) -> Seq<char> {
    let x_wrap = wrap_shift(points, field.x as int, true, 0);
    let y_wrap = wrap_shift(points, field.y as int, false, 0);
    let across_x = Vec2D { x: (field.x * x_wrap) as i64, y: 0 };
    let across_y = Vec2D { x: 0, y: (field.y * y_wrap) as i64 };
    let across_both = Vec2D { x: (field.x * x_wrap) as i64, y: (field.y * y_wrap) as i64 };
    (if x_wrap != 0 && y_wrap != 0 {
        polyline_text(points.map_values(shift_by(across_both)))
    } else {
        Seq::<char>::empty()
    }) + (if x_wrap != 0 {
        polyline_text(points.map_values(shift_by(across_x)))
    } else {
        Seq::<char>::empty()
    }) + (if y_wrap != 0 {
        polyline_text(points.map_values(shift_by(across_y)))
    } else {
        Seq::<char>::empty()
    }) + polyline_text(points)
}

/// The placing of a point of an outline: scaled, then turned, then moved.
pub open spec fn place(scale: int, rotation: int, offset: Vec2D) -> spec_fn(Vec2D) -> Vec2D {
    |p: Vec2D| p.spec_scale(scale).spec_rotate(rotation).plus(offset)
}

/// An outline put in its place and drawn.
pub open spec fn object_text(
    points: Seq<Vec2D>,
    scale: int,
    rotation: int,
    offset: Vec2D,
    field: Vec2D,
) -> Seq<char> {
    wrapping_text(points.map_values(place(scale, rotation, offset)), field)
}

/// The outline of the ship, nose first, in raw units.
pub open spec fn ship_outline() -> Seq<Vec2D> {
    seq![
        Vec2D { x: 655360, y: 0 },
        Vec2D { x: -655360i64, y: -327680i64 },
        Vec2D { x: -524288i64, y: -163840i64 },
        Vec2D { x: -524288i64, y: 163840 },
        Vec2D { x: -655360i64, y: 327680 },
        Vec2D { x: 655360, y: 0 },
    ]
}

/// The outline of the flame behind a ship under thrust.
pub open spec fn flare_outline() -> Seq<Vec2D> {
    seq![
        Vec2D { x: -524288i64, y: 98304 },
        Vec2D { x: -786432i64, y: 0 },
        Vec2D { x: -524288i64, y: -98304i64 },
    ]
}

/// The ship: nothing while it is lost, else its outline, and its flame while
/// a thrust key is held.
pub open spec fn ship_text(world: World) -> Seq<char> {
    if world.ship.dead {
        Seq::<char>::empty()
    } else {
        object_text(
            ship_outline(),
            SHIP_SCALE as int,
            world.ship.angle as int,
            world.ship.pos,
            world.config.field_size,
        ) + (if world.inputs.forward || world.inputs.backward {
            object_text(
                flare_outline(),
                SHIP_SCALE as int,
                world.ship.angle as int,
                world.ship.pos,
                world.config.field_size,
            )
        } else {
            Seq::<char>::empty()
        })
    }
}

/// The far end of the stroke that stands for a bullet: `BULLET_TAIL` ahead
/// of it in the direction of its flight. A bullet at rest is a dot.
pub open spec fn bullet_tail(bullet: Bullet) -> Vec2D {
    match bullet.speed.spec_normalize() {
        Some(direction) => bullet.pos.plus(direction.spec_scale(BULLET_TAIL as int)),
        None => bullet.pos,
    }
}

/// A bullet.
pub open spec fn bullet_text(bullet: Bullet, field: Vec2D) -> Seq<char> {
    wrapping_text(seq![bullet.pos, bullet_tail(bullet)], field)
}

/// The corners of an asteroid, the first one again at the end.
pub open spec fn asteroid_outline(asteroid: Asteroid) -> Seq<Vec2D> {
    Seq::new((asteroid.style + 1) as nat, |i: int| asteroid.corner(i))
}

/// An asteroid.
pub open spec fn asteroid_text(asteroid: Asteroid, field: Vec2D) -> Seq<char> {
    wrapping_text(asteroid_outline(asteroid), field)
}

/// The first `n` of the ships that stand for the lives, in a row from the
/// left, nose up.
pub open spec fn lives_text(n: int, field: Vec2D) -> Seq<char>
    decreases n,
{
    if n <= 0 {
        Seq::<char>::empty()
    } else {
        lives_text(n - 1, field) + object_text(
            ship_outline(),
            SHIP_SCALE as int,
            -HALF_PI as int,
            Vec2D { x: (n * LIFE_STEP) as i64, y: LIFE_HEIGHT },
            field,
        )
    }
}

/// How far an explosion has come at `tick`, from zero at its start to `ONE`
/// at its end.
pub open spec fn explosion_progress(explosion: Explosion, tick: u64) -> int {
    if tick <= explosion.start_tick || explosion.lifetime <= explosion.start_tick {
        0
    } else if tick >= explosion.lifetime {
        ONE as int
    } else {
        ((tick - explosion.start_tick) * ONE) / (explosion.lifetime - explosion.start_tick)
    }
}

/// Spark `i` of an explosion: a stroke that points away from the centre. It
/// moves outward to `EXPLOSION_RADIUS` and grows to twice its length.
pub open spec fn spark(explosion: Explosion, tick: u64, i: int) -> Seq<Vec2D> {
    let state = explosion_progress(explosion, tick);
    let direction = (Vec2D { x: ONE, y: 0 }).spec_rotate((TAU / 11) * i);
    let near = mul_fx(state, EXPLOSION_RADIUS as int);
    let far = near + mul_fx(EXPLOSION_PARTICLE_LENGTH as int, ONE + state);
    seq![
        direction.spec_scale(near).plus(explosion.pos),
        direction.spec_scale(far).plus(explosion.pos),
    ]
}

/// The first `n` sparks of an explosion.
pub open spec fn sparks_text(explosion: Explosion, tick: u64, field: Vec2D, n: int) -> Seq<char>
    decreases n,
{
    if n <= 0 {
        Seq::<char>::empty()
    } else {
        sparks_text(explosion, tick, field, n - 1) + wrapping_text(
            spark(explosion, tick, n - 1),
            field,
        )
    }
}

/// An explosion.
pub open spec fn explosion_text(explosion: Explosion, tick: u64, field: Vec2D) -> Seq<char> {
    sparks_text(explosion, tick, field, EXPLOSION_PARTICLES as int)
}

/// The strokes of the ten digits. The lowest hexadecimal digit of a code is
/// the number of points of the stroke. Each further hexadecimal digit is
/// one point: four times its first coordinate, in `0 ..= 2`, plus its second
/// coordinate, in `0 ..= 3`.
pub open spec fn glyph_code(digit: int) -> u64 {
    if digit == 0 {
        0x4127a947
    } else if digit == 1 {
        0x7413
    } else if digit == 2 {
        0xb39415
    } else if digit == 3 {
        0x37a5806
    } else if digit == 4 {
        0xb8a245
    } else if digit == 5 {
        0x37a51087
    } else if digit == 6 {
        0x15a721488
    } else if digit == 7 {
        0x7803
    } else if digit == 8 {
        0x1ab329809
    } else {
        0xa6149a738
    }
}

/// A code without its `k` lowest hexadecimal digits.
pub open spec fn code_rest(code: int, k: int) -> int
    decreases k,
{
    if k <= 0 {
        code
    } else {
        code_rest(code, k - 1) / 16
    }
}

/// Point `k` of the stroke of a code, in glyph units.
pub open spec fn glyph_point(code: u64, k: int) -> Vec2D {
    let digit = code_rest(code as int, k + 1) % 16;
    Vec2D { x: ((digit / 4) * ONE) as i64, y: ((digit % 4) * ONE) as i64 }
}

/// The stroke of a code.
pub open spec fn glyph_points(code: u64) -> Seq<Vec2D> {
    Seq::new((code % 16) as nat, |k: int| glyph_point(code, k))
}

/// The placing of a point of a digit that stands `index` places from the
/// right: moved, then scaled.
pub open spec fn place_digit(index: int) -> spec_fn(Vec2D) -> Vec2D {
    |p: Vec2D|
        p.plus(
            Vec2D {
                x: ((DIGIT_RIGHTMOST - DIGIT_STEP * index) * ONE) as i64,
                y: (DIGIT_HEIGHT * ONE) as i64,
            },
        ).spec_scale(DIGIT_SCALE as int)
}

/// The digits of `score` from place `index` on, the lowest first. Zero is
/// one digit.
pub open spec fn score_text(score: nat, index: int, field: Vec2D) -> Seq<char>
    decreases score,
{
    let lowest = wrapping_text(
        glyph_points(glyph_code((score % 10) as int)).map_values(place_digit(index)),
        field,
    );
    if score < 10 {
        lowest
    } else {
        lowest + score_text(score / 10, index + 1, field)
    }
}

/// The first `n` bullets.
pub open spec fn bullets_text(bullets: Seq<Bullet>, field: Vec2D, n: int) -> Seq<char>
    decreases n,
{
    if n <= 0 {
        Seq::<char>::empty()
    } else {
        bullets_text(bullets, field, n - 1) + bullet_text(bullets[n - 1], field)
    }
}

/// The first `n` asteroids.
pub open spec fn asteroids_text(asteroids: Seq<Asteroid>, field: Vec2D, n: int) -> Seq<char>
    decreases n,
{
    if n <= 0 {
        Seq::<char>::empty()
    } else {
        asteroids_text(asteroids, field, n - 1) + asteroid_text(asteroids[n - 1], field)
    }
}

/// The first `n` explosions.
pub open spec fn explosions_text(
    explosions: Seq<Explosion>,
    tick: u64,
    field: Vec2D,
    n: int,
) -> Seq<char>
    decreases n,
{
    if n <= 0 {
        Seq::<char>::empty()
    } else {
        explosions_text(explosions, tick, field, n - 1) + explosion_text(
            explosions[n - 1],
            tick,
            field,
        )
    }
}

/// The whole picture: lives, ship, bullets, asteroids, explosions, score.
pub open spec fn game_text(world: World) -> Seq<char> {
    let field = world.config.field_size;
    lives_text(world.lives as int, field) + ship_text(world) + bullets_text(
        world.bullets,
        field,
        world.bullets.len() as int,
    ) + asteroids_text(world.asteroids, field, world.asteroids.len() as int) + explosions_text(
        world.explosions,
        world.tick,
        field,
        world.explosions.len() as int,
    ) + score_text(world.score as nat, 0, field)
}

/// Every point is at most `m` from the origin along both axes.
pub open spec fn all_within(points: Seq<Vec2D>, m: int) -> bool {
    forall|i: int| 0 <= i < points.len() ==> (#[trigger] points[i]).within(m)
}

fn digit_str(d: u64) -> (s: &'static str)
    requires
        d < 10,
    ensures
        s@ == seq![digit_char(d as int)],
{
    proof {
        reveal_strlit("0");
        reveal_strlit("1");
        reveal_strlit("2");
        reveal_strlit("3");
        reveal_strlit("4");
        reveal_strlit("5");
        reveal_strlit("6");
        reveal_strlit("7");
        reveal_strlit("8");
        reveal_strlit("9");
    }
    if d == 0 {
        "0"
    } else if d == 1 {
        "1"
    } else if d == 2 {
        "2"
    } else if d == 3 {
        "3"
    } else if d == 4 {
        "4"
    } else if d == 5 {
        "5"
    } else if d == 6 {
        "6"
    } else if d == 7 {
        "7"
    } else if d == 8 {
        "8"
    } else {
        "9"
    }
}

fn push_digits(buf: &mut String, n: u64)
    ensures
        final(buf)@ == old(buf)@ + digits_text(n as nat),
    decreases n,
{
    if n >= 10 {
        push_digits(buf, n / 10);
    }
    buf.append(digit_str(n % 10));
}

fn push_number(buf: &mut String, v: i64)
    ensures
        final(buf)@ == old(buf)@ + number_text(v as int),
{
    let size: u128 = if v < 0 {
        (-(v as i128)) as u128
    } else {
        v as u128
    };
    let scaled: u128 = size * 100;
    let whole: u128 = scaled / 65536;
    let rest: u128 = scaled % 65536;
    let h: u64 = if rest > 32768 || (rest == 32768 && whole % 2 == 1) {
        (whole + 1) as u64
    } else {
        whole as u64
    };
    proof {
        reveal_strlit("-");
        reveal_strlit(".");
    }
    if v < 0 {
        buf.append("-");
    }
    push_digits(buf, h / 100);
    buf.append(".");
    buf.append(digit_str((h / 10) % 10));
    buf.append(digit_str(h % 10));
}

/// Writes one step of a polyline: a line to `point` where `line` is set, a
/// move to it otherwise.
pub fn draw(buf: &mut String, line: bool, point: &Vec2D)
    ensures
        final(buf)@ == old(buf)@ + point_text(line, *point),
{
    proof {
        reveal_strlit("L");
        reveal_strlit("M");
        reveal_strlit(" ");
    }
    if line {
        buf.append("L");
    } else {
        buf.append("M");
    }
    push_number(buf, point.x);
    buf.append(" ");
    push_number(buf, point.y);
    buf.append(" ");
}

/// Writes a polyline.
pub fn draw_points(buf: &mut String, points: &Vec<Vec2D>)
    ensures
        final(buf)@ == old(buf)@ + polyline_text(points@),
{
    let mut i: usize = 0;
    while i < points.len()
        invariant
            i <= points.len(),
            buf@ == old(buf)@ + points_text(points@, i as int),
        decreases points.len() - i,
    {
        draw(buf, i > 0, &points[i]);
        i = i + 1;
    }
}

/// By how many fields a polyline has to be shifted along one axis to come
/// back in.
pub fn calculate_wrap(points: &Vec<Vec2D>, field_size: &Vec2D, x: bool) -> (shift: i64)
    ensures
        shift == wrap_shift(
            points@,
            if x {
                field_size.x as int
            } else {
                field_size.y as int
            },
            x,
            0,
        ),
        -1 <= shift <= 1,
{
    let extent: i64 = if x {
        field_size.x
    } else {
        field_size.y
    };
    let mut i: usize = 0;
    while i < points.len()
        invariant
            i <= points.len(),
            extent == (if x {
                field_size.x
            } else {
                field_size.y
            }),
            wrap_shift(points@, extent as int, x, 0) == wrap_shift(
                points@,
                extent as int,
                x,
                i as int,
            ),
        decreases points.len() - i,
    {
        let at: i64 = if x {
            points[i].x
        } else {
            points[i].y
        };
        if at >= extent {
            assert(wrap_shift(points@, extent as int, x, i as int) == -1);
            return -1;
        } else if at < 0 {
            assert(wrap_shift(points@, extent as int, x, i as int) == 1);
            return 1;
        }
        assert(wrap_shift(points@, extent as int, x, i as int) == wrap_shift(
            points@,
            extent as int,
            x,
            i + 1,
        ));
        i = i + 1;
    }
    0
}

/// The points of a polyline, each shifted by `translation`.
pub fn translate(points: &Vec<Vec2D>, translation: &Vec2D) -> (shifted: Vec<Vec2D>)
    requires
        all_within(points@, DRAW_MAX as int),
        translation.within(FIELD_MAX as int),
    ensures
        shifted@ == points@.map_values(shift_by(*translation)),
{
    let mut shifted: Vec<Vec2D> = Vec::new();
    let mut i: usize = 0;
    while i < points.len()
        invariant
            all_within(points@, DRAW_MAX as int),
            translation.within(FIELD_MAX as int),
            i <= points.len(),
            shifted@ == points@.take(i as int).map_values(shift_by(*translation)),
        decreases points.len() - i,
    {
        assert(points@[i as int].within(DRAW_MAX as int));
        proof {
            points@.lemma_map_take_succ(shift_by(*translation), i as int);
        }
        shifted.push(points[i] + *translation);
        i = i + 1;
    }
    proof {
        points@.lemma_take_len();
    }
    shifted
}

/// Writes a polyline with its copies on the other sides of the field.
pub fn draw_points_wrapping(buf: &mut String, points: &Vec<Vec2D>, field_size: &Vec2D)
    requires
        all_within(points@, DRAW_MAX as int),
        0 < field_size.x <= FIELD_MAX,
        0 < field_size.y <= FIELD_MAX,
    ensures
        final(buf)@ == old(buf)@ + wrapping_text(points@, *field_size),
{
    let x_wrap: i64 = calculate_wrap(points, field_size, true);
    let y_wrap: i64 = calculate_wrap(points, field_size, false);
    proof {
        lemma_mul_abs_le(field_size.x as int, x_wrap as int, FIELD_MAX as int, 1);
        lemma_mul_abs_le(field_size.y as int, y_wrap as int, FIELD_MAX as int, 1);
    }
    if x_wrap != 0 {
        if y_wrap != 0 {
            let translated_points: Vec<Vec2D> = translate(
                points,
                &Vec2D { x: field_size.x * x_wrap, y: field_size.y * y_wrap },
            );
            draw_points(buf, &translated_points);
        }
        let translated_points: Vec<Vec2D> = translate(
            points,
            &Vec2D { x: field_size.x * x_wrap, y: 0 },
        );
        draw_points(buf, &translated_points);
    }
    if y_wrap != 0 {
        let translated_points: Vec<Vec2D> = translate(
            points,
            &Vec2D { x: 0, y: field_size.y * y_wrap },
        );
        draw_points(buf, &translated_points);
    }
    draw_points(buf, points);
    assert(buf@ =~= old(buf)@ + wrapping_text(points@, *field_size));
}

/// Writes an outline after scaling it, turning it and moving it into place.
pub fn draw_object(
    buf: &mut String,
    points: &Vec<Vec2D>,
    scale: i64,
    rotation: i64,
    offset: &Vec2D,
    field_size: &Vec2D,
)
    requires
        all_within(points@, OUTLINE_MAX as int),
        -SIZE_MAX <= scale <= SIZE_MAX,
        offset.within(COORD_MAX as int),
        0 < field_size.x <= FIELD_MAX,
        0 < field_size.y <= FIELD_MAX,
    ensures
        final(buf)@ == old(buf)@ + object_text(
            points@,
            scale as int,
            rotation as int,
            *offset,
            *field_size,
        ),
{
    let mut placed: Vec<Vec2D> = Vec::new();
    let mut i: usize = 0;
    while i < points.len()
        invariant
            all_within(points@, OUTLINE_MAX as int),
            -SIZE_MAX <= scale <= SIZE_MAX,
            offset.within(COORD_MAX as int),
            i <= points.len(),
            placed@ == points@.take(i as int).map_values(
                place(scale as int, rotation as int, *offset),
            ),
            all_within(placed@, DRAW_MAX as int),
        decreases points.len() - i,
    {
        let point: Vec2D = points[i];
        assert(points@[i as int].within(OUTLINE_MAX as int));
        proof {
            points@.lemma_map_take_succ(place(scale as int, rotation as int, *offset), i as int);
            lemma_mul_fx_le(point.x as int, scale as int, 0x100_0000, 0x100_0000);
            lemma_mul_fx_le(point.y as int, scale as int, 0x100_0000, 0x100_0000);
        }
        let scaled: Vec2D = point.scale(scale);
        proof {
            lemma_turned_in(scaled, rotation as int, 0x1_0000_0000);
        }
        placed.push(scaled.rotate(rotation) + *offset);
        i = i + 1;
    }
    proof {
        points@.lemma_take_len();
    }
    draw_points_wrapping(buf, &placed, field_size);
}

/// Turning a vector at most doubles the larger of its components.
pub proof fn lemma_turned_in(v: Vec2D, angle: int, m: int)
    requires
        v.within(m),
        0 <= m <= 0x2000_0000_0000_0000,
    ensures
        v.spec_rotate(angle).within(2 * m),
{
    crate::fixed::lemma_sin_cos_range(angle);
    lemma_mul_fx_le(v.x as int, crate::fixed::cos_fx(angle), m, ONE as int);
    lemma_mul_fx_le(v.y as int, crate::fixed::sin_fx(angle), m, ONE as int);
    lemma_mul_fx_le(v.y as int, crate::fixed::cos_fx(angle), m, ONE as int);
    lemma_mul_fx_le(v.x as int, crate::fixed::sin_fx(angle), m, ONE as int);
    vstd::arithmetic::div_mod::lemma_div_multiples_vanish(m, ONE as int);
    assert(m * ONE == ONE * m);
}

fn ship_points() -> (points: Vec<Vec2D>)
    ensures
        points@ == ship_outline(),
        all_within(points@, OUTLINE_MAX as int),
{
    let mut points: Vec<Vec2D> = Vec::new();
    points.push(Vec2D { x: 655360, y: 0 });
    points.push(Vec2D { x: -655360, y: -327680 });
    points.push(Vec2D { x: -524288, y: -163840 });
    points.push(Vec2D { x: -524288, y: 163840 });
    points.push(Vec2D { x: -655360, y: 327680 });
    points.push(Vec2D { x: 655360, y: 0 });
    assert(points@ =~= ship_outline());
    points
}

fn flare_points() -> (points: Vec<Vec2D>)
    ensures
        points@ == flare_outline(),
        all_within(points@, OUTLINE_MAX as int),
{
    let mut points: Vec<Vec2D> = Vec::new();
    points.push(Vec2D { x: -524288, y: 98304 });
    points.push(Vec2D { x: -786432, y: 0 });
    points.push(Vec2D { x: -524288, y: -98304 });
    assert(points@ =~= flare_outline());
    points
}

/// Writes the ship, and its flame while a thrust key is held. A lost ship
/// is not drawn.
pub fn render_ship(buf: &mut String, game: &Game)
    requires
        game@.wf(),
    ensures
        final(buf)@ == old(buf)@ + ship_text(game@),
{
    let ship: &Ship = &game.ship;
    if ship.dead {
        assert(buf@ =~= old(buf)@ + ship_text(game@));
        return ;
    }
    draw_object(
        buf,
        &ship_points(),
        SHIP_SCALE,
        ship.angle,
        &ship.pos,
        &game.config.field_size,
    );
    if game.inputs.is_down(InputIndex::Forward) || game.inputs.is_down(InputIndex::Backward) {
        draw_object(
            buf,
            &flare_points(),
            SHIP_SCALE,
            ship.angle,
            &ship.pos,
            &game.config.field_size,
        );
    }
    assert(buf@ =~= old(buf)@ + ship_text(game@));
}

/// Writes a bullet as a short stroke in the direction of its flight.
pub fn render_bullet(buf: &mut String, bullet: &Bullet, field_size: &Vec2D)
    requires
        0 < field_size.x <= FIELD_MAX,
        0 < field_size.y <= FIELD_MAX,
        bullet.valid(*field_size),
    ensures
        final(buf)@ == old(buf)@ + bullet_text(*bullet, *field_size),
{
    let tail: Vec2D = match bullet.speed.normalize() {
        Some(direction) => {
            proof {
                lemma_mul_fx_le(direction.x as int, BULLET_TAIL as int, 0x1_0000, 327680);
                lemma_mul_fx_le(direction.y as int, BULLET_TAIL as int, 0x1_0000, 327680);
            }
            bullet.pos + direction.scale(BULLET_TAIL)
        },
        None => bullet.pos,
    };
    let mut stroke: Vec<Vec2D> = Vec::new();
    stroke.push(bullet.pos);
    stroke.push(tail);
    assert(stroke@ =~= seq![bullet.pos, bullet_tail(*bullet)]);
    draw_points_wrapping(buf, &stroke, field_size);
}

/// Writes an asteroid as the closed polygon of its corners.
pub fn render_asteroid(buf: &mut String, asteroid: &Asteroid, field_size: &Vec2D)
    requires
        0 < field_size.x <= FIELD_MAX,
        0 < field_size.y <= FIELD_MAX,
        asteroid.valid(*field_size),
    ensures
        final(buf)@ == old(buf)@ + asteroid_text(*asteroid, *field_size),
{
    let cnt: usize = asteroid.style;
    let mut asteroid_points: Vec<Vec2D> = Vec::new();
    let mut i: usize = 0;
    while i <= cnt
        invariant
            0 < field_size.x <= FIELD_MAX,
            0 < field_size.y <= FIELD_MAX,
            asteroid.valid(*field_size),
            cnt == asteroid.style,
            i <= cnt + 1,
            asteroid_points@.len() == i,
            forall|k: int| 0 <= k < i ==> #[trigger] asteroid_points@[k] == asteroid.corner(k),
            all_within(asteroid_points@, DRAW_MAX as int),
        decreases cnt + 1 - i,
    {
        asteroid_points.push(asteroid.vertex(i));
        i = i + 1;
    }
    assert(asteroid_points@ =~= asteroid_outline(*asteroid));
    draw_points_wrapping(buf, &asteroid_points, field_size);
}

/// Writes one ship for each life, in a row from the left, nose up.
pub fn render_lives(buf: &mut String, lives: u64, field_size: &Vec2D)
    requires
        lives <= LIVES_MAX,
        0 < field_size.x <= FIELD_MAX,
        0 < field_size.y <= FIELD_MAX,
    ensures
        final(buf)@ == old(buf)@ + lives_text(lives as int, *field_size),
{
    let mut l: u64 = 0;
    while l < lives
        invariant
            l <= lives <= LIVES_MAX,
            0 < field_size.x <= FIELD_MAX,
            0 < field_size.y <= FIELD_MAX,
            buf@ == old(buf)@ + lives_text(l as int, *field_size),
        decreases lives - l,
    {
        let x: i64 = ((l + 1) as i64) * LIFE_STEP;
        draw_object(
            buf,
            &ship_points(),
            SHIP_SCALE,
            -HALF_PI,
            &Vec2D { x, y: LIFE_HEIGHT },
            field_size,
        );
        l = l + 1;
    }
}

/// Writes the sparks of an explosion as it stands at `tick`.
pub fn render_explosion(buf: &mut String, explosion: &Explosion, tick: u64, field_size: &Vec2D)
    requires
        0 < field_size.x <= FIELD_MAX,
        0 < field_size.y <= FIELD_MAX,
        explosion.valid(*field_size),
    ensures
        final(buf)@ == old(buf)@ + explosion_text(*explosion, tick, *field_size),
{
    let mut i: usize = 0;
    while i < EXPLOSION_PARTICLES
        invariant
            0 < field_size.x <= FIELD_MAX,
            0 < field_size.y <= FIELD_MAX,
            explosion.valid(*field_size),
            i <= EXPLOSION_PARTICLES,
            buf@ == old(buf)@ + sparks_text(*explosion, tick, *field_size, i as int),
        decreases EXPLOSION_PARTICLES - i,
    {
        let stroke: Vec<Vec2D> = spark_points(explosion, tick, i, field_size);
        draw_points_wrapping(buf, &stroke, field_size);
        i = i + 1;
    }
}

fn spark_points(explosion: &Explosion, tick: u64, i: usize, field_size: &Vec2D) -> (stroke: Vec<
    Vec2D,
>)
    requires
        0 < field_size.x <= FIELD_MAX,
        0 < field_size.y <= FIELD_MAX,
        explosion.valid(*field_size),
        i < EXPLOSION_PARTICLES,
    ensures
        stroke@ == spark(*explosion, tick, i as int),
        all_within(stroke@, DRAW_MAX as int),
{
    let state: i64 = progress(explosion, tick);
    proof {
        lemma_mul_fx_le(state as int, EXPLOSION_RADIUS as int, 0x1_0000, 1966080);
        lemma_mul_fx_le(EXPLOSION_PARTICLE_LENGTH as int, ONE + state, 655360, 0x2_0000);
        crate::fixed::lemma_trunc_div_bounds(state * EXPLOSION_RADIUS, ONE as int);
        crate::fixed::lemma_trunc_div_bounds(EXPLOSION_PARTICLE_LENGTH * (ONE + state), ONE as int);
        assert(state * EXPLOSION_RADIUS >= 0) by (nonlinear_arith)
            requires
                state >= 0,
        ;
        assert(EXPLOSION_PARTICLE_LENGTH * (ONE + state) >= 0) by (nonlinear_arith)
            requires
                state >= 0,
        ;
    }
    let near: i64 = crate::fixed::fx_mul(state, EXPLOSION_RADIUS);
    let far: i64 = near + crate::fixed::fx_mul(EXPLOSION_PARTICLE_LENGTH, ONE + state);
    let a: i64 = (TAU / 11) * (i as i64);
    proof {
        lemma_turned_within(ONE as int, a as int);
    }
    let dir: Vec2D = Vec2D::one().rotate(a);
    proof {
        lemma_mul_fx_le(dir.x as int, near as int, 0x1_0000, 1966080);
        lemma_mul_fx_le(dir.y as int, near as int, 0x1_0000, 1966080);
        lemma_mul_fx_le(dir.x as int, far as int, 0x1_0000, 3276800);
        lemma_mul_fx_le(dir.y as int, far as int, 0x1_0000, 3276800);
    }
    let start: Vec2D = dir.scale(near) + explosion.pos;
    let end: Vec2D = dir.scale(far) + explosion.pos;
    let mut stroke: Vec<Vec2D> = Vec::new();
    stroke.push(start);
    stroke.push(end);
    assert(stroke@ =~= spark(*explosion, tick, i as int));
    stroke
}

fn progress(explosion: &Explosion, tick: u64) -> (state: i64)
    ensures
        state == explosion_progress(*explosion, tick),
        0 <= state <= ONE,
{
    if tick <= explosion.start_tick || explosion.lifetime <= explosion.start_tick {
        0
    } else if tick >= explosion.lifetime {
        ONE
    } else {
        let run: u128 = (tick - explosion.start_tick) as u128;
        let whole: u128 = (explosion.lifetime - explosion.start_tick) as u128;
        proof {
            let r = run as int;
            let w = whole as int;
            assert(0 <= r * ONE <= w * ONE) by (nonlinear_arith)
                requires
                    0 <= r <= w,
            ;
            vstd::arithmetic::div_mod::lemma_div_is_ordered(r * ONE, w * ONE, w);
            vstd::arithmetic::div_mod::lemma_div_multiples_vanish(ONE as int, w);
            assert(w * ONE == ONE * w) by (nonlinear_arith);
            vstd::arithmetic::div_mod::lemma_div_pos_is_pos(r * ONE, w);
            lemma_mul_abs_le(r, ONE as int, 0xffff_ffff_ffff_ffff, 0x1_0000);
        }
        ((run * (ONE as u128)) / whole) as i64
    }
}

fn glyph(digit: u64) -> (code: u64)
    requires
        digit < 10,
    ensures
        code == glyph_code(digit as int),
{
    if digit == 0 {
        0x4127a947
    } else if digit == 1 {
        0x7413
    } else if digit == 2 {
        0xb39415
    } else if digit == 3 {
        0x37a5806
    } else if digit == 4 {
        0xb8a245
    } else if digit == 5 {
        0x37a51087
    } else if digit == 6 {
        0x15a721488
    } else if digit == 7 {
        0x7803
    } else if digit == 8 {
        0x1ab329809
    } else {
        0xa6149a738
    }
}

fn digit_points(digit: u64, index: u64) -> (points: Vec<Vec2D>)
    requires
        digit < 10,
        index < 20,
    ensures
        points@ == glyph_points(glyph_code(digit as int)).map_values(place_digit(index as int)),
        all_within(points@, DRAW_MAX as int),
{
    let code: u64 = glyph(digit);
    let count: u64 = code % 16;
    let offset: Vec2D = Vec2D {
        x: (DIGIT_RIGHTMOST - DIGIT_STEP * (index as i64)) * ONE,
        y: DIGIT_HEIGHT * ONE,
    };
    let mut points: Vec<Vec2D> = Vec::new();
    let mut rest: u64 = code / 16;
    let mut k: u64 = 0;
    assert(code_rest(code as int, 1) == code / 16) by {
        reveal_with_fuel(code_rest, 2);
    }
    while k < count
        invariant
            k <= count < 16,
            index < 20,
            rest == code_rest(code as int, k + 1),
            offset == (Vec2D {
                x: ((DIGIT_RIGHTMOST - DIGIT_STEP * index) * ONE) as i64,
                y: (DIGIT_HEIGHT * ONE) as i64,
            }),
            points@.len() == k,
            forall|j: int|
                0 <= j < k ==> #[trigger] points@[j] == place_digit(index as int)(
                    glyph_point(code, j),
                ),
            all_within(points@, DRAW_MAX as int),
        decreases count - k,
    {
        let part: u64 = rest % 16;
        let at: Vec2D = Vec2D { x: ((part / 4) as i64) * ONE, y: ((part % 4) as i64) * ONE };
        let moved: Vec2D = at + offset;
        proof {
            assert(code_rest(code as int, k + 1 + 1) == code_rest(code as int, k + 1) / 16);
            lemma_mul_fx_le(moved.x as int, DIGIT_SCALE as int, 0x80_0000, 655360);
            lemma_mul_fx_le(moved.y as int, DIGIT_SCALE as int, 0x80_0000, 655360);
        }
        points.push(moved.scale(DIGIT_SCALE));
        rest = rest / 16;
        k = k + 1;
    }
    assert(points@ =~= glyph_points(code).map_values(place_digit(index as int)));
    points
}

/// Writes the score in digits of strokes, the lowest digit first and
/// rightmost.
pub fn render_score(buf: &mut String, score: u64, field_size: &Vec2D)
    requires
        0 < field_size.x <= FIELD_MAX,
        0 < field_size.y <= FIELD_MAX,
    ensures
        final(buf)@ == old(buf)@ + score_text(score as nat, 0, *field_size),
{
    let mut rest: u64 = score;
    let mut idx: u64 = 0;
    let ghost mut bound: int = 1;
    proof {
        assert(score < 0x1_0000_0000_0000_0000);
    }
    loop
        invariant_except_break
            0 < field_size.x <= FIELD_MAX,
            0 < field_size.y <= FIELD_MAX,
            idx < 20,
            rest * place_value(idx as int) <= score,
            old(buf)@ + score_text(score as nat, 0, *field_size) == buf@ + score_text(
                rest as nat,
                idx as int,
                *field_size,
            ),
        ensures
            buf@ == old(buf)@ + score_text(score as nat, 0, *field_size),
        decreases rest,
    {
        let points: Vec<Vec2D> = digit_points(rest % 10, idx);
        let ghost before = buf@;
        draw_points_wrapping(buf, &points, field_size);
        if rest < 10 {
            break ;
        }
        proof {
            lemma_place_value_bound(rest as int, idx as int, score as int);
            assert(before + score_text(rest as nat, idx as int, *field_size) =~= buf@ + score_text(
                (rest / 10) as nat,
                idx + 1,
                *field_size,
            ));
        }
        rest = rest / 10;
        idx = idx + 1;
    }
}

/// Ten to the power `index`.
pub open spec fn place_value(index: int) -> int
    decreases index,
{
    if index <= 0 {
        1
    } else {
        10 * place_value(index - 1)
    }
}

/// A number that has digits left above place `index` is at least ten to
/// the power `index + 1`, so a number below two to the power 64 has no
/// digit above place 19.
proof fn lemma_place_value_bound(rest: int, index: int, score: int)
    requires
        0 <= index,
        rest >= 10,
        rest * place_value(index) <= score,
        score < 0x1_0000_0000_0000_0000,
    ensures
        (rest / 10) * place_value(index + 1) <= score,
        index + 1 < 20,
{
    let p = place_value(index);
    lemma_place_value_grows(index);
    assert(place_value(index + 1) == 10 * p);
    assert((rest / 10) * (10 * p) <= rest * p) by (nonlinear_arith)
        requires
            10 * (rest / 10) <= rest,
            p >= 0,
    {
        assert((rest / 10) * (10 * p) == (10 * (rest / 10)) * p);
    }
    lemma_place_value_grows(index);
    if index >= 19 {
        lemma_place_value_monotone(19, index);
        assert(place_value(19) == 10000000000000000000) by {
            reveal_with_fuel(place_value, 20);
        }
        assert(rest * p >= 10 * p) by (nonlinear_arith)
            requires
                rest >= 10,
                p >= 0,
        ;
    }
}

proof fn lemma_place_value_grows(index: int)
    ensures
        place_value(index) >= 1,
    decreases index,
{
    if index > 0 {
        lemma_place_value_grows(index - 1);
    }
}

proof fn lemma_place_value_monotone(low: int, high: int)
    requires
        low <= high,
    ensures
        place_value(low) <= place_value(high),
    decreases high - low,
{
    lemma_place_value_grows(low);
    if low < high {
        lemma_place_value_monotone(low, high - 1);
        lemma_place_value_grows(high - 1);
    }
}

fn render_bullets(buf: &mut String, game: &Game)
    requires
        game@.wf(),
    ensures
        final(buf)@ == old(buf)@ + bullets_text(
            game.bullets@,
            game.config.field_size,
            game.bullets@.len() as int,
        ),
{
    let mut i: usize = 0;
    while i < game.bullets.len()
        invariant
            0 < game.config.field_size.x <= FIELD_MAX,
            0 < game.config.field_size.y <= FIELD_MAX,
            crate::game::bullets_valid(game.bullets@, game.config.field_size, game.tick),
            i <= game.bullets.len(),
            buf@ == old(buf)@ + bullets_text(game.bullets@, game.config.field_size, i as int),
        decreases game.bullets.len() - i,
    {
        assert(game.bullets@[i as int].valid(game.config.field_size));
        render_bullet(buf, &game.bullets[i], &game.config.field_size);
        i = i + 1;
    }
}

fn render_asteroids(buf: &mut String, game: &Game)
    requires
        game@.wf(),
    ensures
        final(buf)@ == old(buf)@ + asteroids_text(
            game.asteroids@,
            game.config.field_size,
            game.asteroids@.len() as int,
        ),
{
    let mut i: usize = 0;
    while i < game.asteroids.len()
        invariant
            0 < game.config.field_size.x <= FIELD_MAX,
            0 < game.config.field_size.y <= FIELD_MAX,
            crate::game::asteroids_valid(game.asteroids@, game.config.field_size),
            i <= game.asteroids.len(),
            buf@ == old(buf)@ + asteroids_text(game.asteroids@, game.config.field_size, i as int),
        decreases game.asteroids.len() - i,
    {
        assert(game.asteroids@[i as int].valid(game.config.field_size));
        render_asteroid(buf, &game.asteroids[i], &game.config.field_size);
        i = i + 1;
    }
}

fn render_explosions(buf: &mut String, game: &Game)
    requires
        game@.wf(),
    ensures
        final(buf)@ == old(buf)@ + explosions_text(
            game.explosions@,
            game.tick,
            game.config.field_size,
            game.explosions@.len() as int,
        ),
{
    let mut i: usize = 0;
    while i < game.explosions.len()
        invariant
            0 < game.config.field_size.x <= FIELD_MAX,
            0 < game.config.field_size.y <= FIELD_MAX,
            crate::game::explosions_valid(game.explosions@, game.config.field_size),
            i <= game.explosions.len(),
            buf@ == old(buf)@ + explosions_text(
                game.explosions@,
                game.tick,
                game.config.field_size,
                i as int,
            ),
        decreases game.explosions.len() - i,
    {
        assert(game.explosions@[i as int].valid(game.config.field_size));
        render_explosion(buf, &game.explosions[i], game.tick, &game.config.field_size);
        i = i + 1;
    }
}

/// Writes the picture of the game to the end of `buf`: lives, ship, bullets,
/// asteroids, explosions and score, in this order.
pub fn render_game(buf: &mut String, game: &Game)
    requires
        game@.wf(),
    ensures
        final(buf)@ == old(buf)@ + game_text(game@),
{
    let field_size: Vec2D = game.config.field_size;
    let ghost start = buf@;
    let ghost lives = lives_text(game.lives as int, field_size);
    let ghost ship = ship_text(game@);
    let ghost bullets = bullets_text(game.bullets@, field_size, game.bullets@.len() as int);
    let ghost asteroids = asteroids_text(
        game.asteroids@,
        field_size,
        game.asteroids@.len() as int,
    );
    let ghost explosions = explosions_text(
        game.explosions@,
        game.tick,
        field_size,
        game.explosions@.len() as int,
    );
    let ghost score = score_text(game.score as nat, 0, field_size);
    render_lives(buf, game.lives, &field_size);
    render_ship(buf, game);
    render_bullets(buf, game);
    render_asteroids(buf, game);
    render_explosions(buf, game);
    render_score(buf, game.score, &field_size);
    proof {
        lemma_six_parts(start, lives, ship, bullets, asteroids, explosions, score);
    }
}

/// Text that is written part by part is the text of the parts together.
proof fn lemma_six_parts(
    start: Seq<char>,
    a: Seq<char>,
    b: Seq<char>,
    c: Seq<char>,
    d: Seq<char>,
    e: Seq<char>,
    f: Seq<char>,
)
    ensures
        start + a + b + c + d + e + f == start + (a + b + c + d + e + f),
{
    assert(start + a + b + c + d + e + f =~= start + (a + b + c + d + e + f));
}

} // verus!
