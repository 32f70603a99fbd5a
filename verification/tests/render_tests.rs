use ascii_renderer::char_buffer::CharBuffer;
use ascii_renderer::create_cube;
use ascii_renderer::projection::{project, scale, shift_back, turn, turn_back};
use ascii_renderer::rendering::{Camera, Mesh, MissingVertex, Renderer};
use ascii_renderer::trig::SineTable;
use ascii_renderer::vector::{Vector2, Vector3};

fn sines() -> SineTable {
    let values: Vec<i32> = (0..6283)
        .map(|i| ((i as f64 / 1000.0).sin() * 1000.0).round() as i32)
        .collect();
    SineTable::new(values).unwrap()
}

fn picture(buf: &CharBuffer) -> Vec<String> {
    let mut rows = Vec::new();
    for y in 0..buf.height() {
        let mut row = String::new();
        for x in 0..buf.width() {
            row.push(buf.get_char(x, y).unwrap());
        }
        rows.push(row);
    }
    rows
}

fn cube_renderer() -> Renderer {
    Renderer {
        meshs: vec![create_cube()],
        camera: Camera {
            position: Vector3::new(0, 0, -7000),
            rotation: Vector3::new(0, 0, 0),
            fov: Vector2::new(800, 800),
        },
        sines: sines(),
    }
}

#[test]
fn sine_table_must_cover_one_turn() {
    assert!(SineTable::new(Vec::new()).is_none());
    assert!(SineTable::new(vec![0; 6282]).is_none());
    assert!(SineTable::new(vec![0; 6284]).is_none());
    assert!(SineTable::new(vec![0; 6283]).is_some());
}

#[test]
fn sine_table_values_must_not_exceed_one() {
    let mut values = vec![0; 6283];
    values[17] = 1000;
    values[18] = -1000;
    assert!(SineTable::new(values.clone()).is_some());
    values[6282] = 1001;
    assert!(SineTable::new(values.clone()).is_none());
    values[6282] = -1001;
    assert!(SineTable::new(values).is_none());
}

#[test]
fn sines_and_cosines_are_read_from_the_table() {
    let t = sines();
    assert_eq!(t.sin(0), 0);
    assert_eq!(t.cos(0), 1000);
    assert_eq!(t.sin(800), 717);
    assert_eq!(t.cos(800), 697);
    assert_eq!(t.sin(1571), 1000);
    assert_eq!(t.cos(1571), 0);
    assert_eq!(t.sin(-500), -480);
    assert_eq!(t.sin(6282), -1);
    assert_eq!(t.sin(6283), 0);
    assert_eq!(t.cos(6283 - 1571), 0);
}

#[test]
fn sines_come_round_after_a_full_turn() {
    let t = sines();
    for angle in [-20_000, -6283, -1, 0, 1, 700, 3141, 6282, 6283, 50_000] {
        assert_eq!(t.sin(angle + 6283), t.sin(angle));
        assert_eq!(t.cos(angle + 6283), t.cos(angle));
        assert_eq!(t.sin(angle - 3 * 6283), t.sin(angle));
    }
    assert_eq!(t.sin(i32::MAX), t.sin(i32::MAX - 6283));
    assert_eq!(t.cos(i32::MAX), t.cos(i32::MAX - 6283));
    assert_eq!(t.sin(i32::MIN), t.sin(i32::MIN + 6283));
    assert_eq!(t.cos(i32::MIN), t.cos(i32::MIN + 6283));
}

#[test]
fn scale_multiplies_componentwise_and_rounds_down() {
    assert_eq!(
        scale(Vector3::new(1000, 2000, -3000), Vector3::new(2000, 500, 1000)),
        Vector3::new(2000, 1000, -3000)
    );
    assert_eq!(
        scale(Vector3::new(1, -1, 999), Vector3::new(500, 500, 1)),
        Vector3::new(0, -1, 0)
    );
    assert_eq!(
        scale(Vector3::new(i32::MAX, i32::MIN, 5), Vector3::new(2000, 2000, 0)),
        Vector3::new(i32::MAX, i32::MIN, 0)
    );
}

#[test]
fn turn_by_nothing_is_the_identity() {
    let t = sines();
    let v = Vector3::new(1234, -5678, 91011);
    assert_eq!(turn(&t, v, Vector3::new(0, 0, 0)), v);
    assert_eq!(turn_back(&t, v, Vector3::new(0, 0, 0)), v);
    assert_eq!(turn(&t, v, Vector3::new(6283, -6283, 2 * 6283)), v);
}

#[test]
fn quarter_turns_exchange_the_axes() {
    let t = sines();
    let v = Vector3::new(1000, 20, 5);
    assert_eq!(turn(&t, v, Vector3::new(0, 0, 1571)), Vector3::new(-20, 1000, 5));
    assert_eq!(turn(&t, v, Vector3::new(1571, 0, 0)), Vector3::new(1000, -5, 20));
    assert_eq!(turn(&t, v, Vector3::new(0, 1571, 0)), Vector3::new(5, 20, -1000));
    assert_eq!(
        turn_back(&t, Vector3::new(-20, 1000, 5), Vector3::new(0, 0, 1571)),
        v
    );
}

#[test]
fn turns_go_about_x_then_y_then_z() {
    let t = sines();
    assert_eq!(
        turn(&t, Vector3::new(1000, 1000, 1000), Vector3::new(0, 700, 0)),
        Vector3::new(1409, 1000, 121)
    );
    assert_eq!(
        turn(&t, Vector3::new(1000, 2000, 3000), Vector3::new(100, 200, 300)),
        Vector3::new(1040, 2091, 2922)
    );
    assert_eq!(
        turn_back(&t, Vector3::new(1040, 2091, 2922), Vector3::new(100, 200, 300)),
        Vector3::new(998, 1998, 2999)
    );
    assert_eq!(
        turn(&t, Vector3::new(0, 1000, 0), Vector3::new(1571, 1571, 0)),
        Vector3::new(1000, 0, 0)
    );
}

#[test]
fn shift_back_subtracts_and_clamps() {
    assert_eq!(
        shift_back(Vector3::new(1, 2, 3), Vector3::new(0, 0, -7000)),
        Vector3::new(1, 2, 7003)
    );
    assert_eq!(
        shift_back(Vector3::new(i32::MAX, i32::MIN, 0), Vector3::new(-1, 1, 0)),
        Vector3::new(i32::MAX, i32::MIN, 0)
    );
}

#[test]
fn project_puts_the_axis_in_the_middle() {
    let t = sines();
    assert_eq!(
        project(&t, Vector3::new(0, 0, 5000), Vector2::new(800, 800), 50, 50),
        Some(Vector2::new(25000, 25000))
    );
    assert_eq!(
        project(&t, Vector3::new(0, 0, 1), Vector2::new(800, 600), 80, 24),
        Some(Vector2::new(40000, 12000))
    );
}

#[test]
fn project_puts_the_edge_of_the_field_at_the_edge_of_the_screen() {
    let t = sines();
    assert_eq!(
        project(&t, Vector3::new(717, 717, 697), Vector2::new(800, 800), 50, 50),
        Some(Vector2::new(50000, 0))
    );
    assert_eq!(
        project(&t, Vector3::new(-717, -717, 697), Vector2::new(800, 800), 50, 50),
        Some(Vector2::new(0, 50000))
    );
}

#[test]
fn project_exact_values() {
    let t = sines();
    assert_eq!(
        project(&t, Vector3::new(1000, -2000, 7000), Vector2::new(800, 800), 50, 50),
        Some(Vector2::new(28471, 31943))
    );
    assert_eq!(
        project(&t, Vector3::new(1000, -2000, 7000), Vector2::new(800, 600), 80, 24),
        Some(Vector2::new(45554, 17006))
    );
}

#[test]
fn project_rejects_points_at_or_behind_the_eye() {
    let t = sines();
    let fov = Vector2::new(800, 800);
    assert_eq!(project(&t, Vector3::new(0, 0, 0), fov, 50, 50), None);
    assert_eq!(project(&t, Vector3::new(5, 5, -1), fov, 50, 50), None);
    assert_eq!(project(&t, Vector3::new(5, 5, i32::MIN), fov, 50, 50), None);
}

#[test]
fn project_rejects_a_field_of_view_that_is_not_acute() {
    let t = sines();
    let c = Vector3::new(0, 0, 5000);
    assert_eq!(project(&t, c, Vector2::new(0, 800), 50, 50), None);
    assert_eq!(project(&t, c, Vector2::new(800, 0), 50, 50), None);
    assert_eq!(project(&t, c, Vector2::new(1571, 800), 50, 50), None);
    assert_eq!(project(&t, c, Vector2::new(800, 2000), 50, 50), None);
    assert_eq!(project(&t, c, Vector2::new(-800, 800), 50, 50), None);
}

#[test]
fn project_clamps_far_off_points() {
    let t = sines();
    assert_eq!(
        project(&t, Vector3::new(i32::MAX, i32::MAX, 1), Vector2::new(800, 800), 50, 50),
        Some(Vector2::new(i32::MAX, i32::MIN))
    );
}

#[test]
fn screen_point_goes_through_every_step() {
    let t = sines();
    let mut mesh = Mesh::new();
    mesh.rotation = Vector3::new(0, 700, 0);
    let camera = Camera {
        position: Vector3::new(0, 0, -7000),
        rotation: Vector3::new(0, 0, 0),
        fov: Vector2::new(800, 800),
    };
    assert_eq!(
        mesh.screen_point(&t, &camera, Vector3::new(1000, 1000, 1000), 50, 50),
        Some(Vector2::new(29808, 21587))
    );
    let mut mesh = Mesh::new();
    mesh.scale = Vector3::new(2000, 500, 1000);
    let camera = Camera {
        position: Vector3::new(500, -250, -7000),
        rotation: Vector3::new(0, 100, 0),
        fov: Vector2::new(800, 800),
    };
    assert_eq!(
        mesh.screen_point(&t, &camera, Vector3::new(1000, 1000, 1000), 50, 50),
        Some(Vector2::new(27073, 22752))
    );
}

#[test]
fn cube_is_drawn_as_a_symmetric_wireframe() {
    let renderer = cube_renderer();
    let mut buf = CharBuffer::new(50, 50);
    assert_eq!(renderer.draw(&mut buf), Ok(()));
    let rows = picture(&buf);
    let blank = " ".repeat(50);
    for y in 0..21 {
        assert_eq!(rows[y], blank);
    }
    let full = format!("{}#########{}", " ".repeat(21), " ".repeat(20));
    let side = format!("{}##     ##{}", " ".repeat(21), " ".repeat(20));
    assert_eq!(rows[21], full);
    assert_eq!(rows[22], full);
    for y in 23..28 {
        assert_eq!(rows[y], side);
    }
    assert_eq!(rows[28], full);
    assert_eq!(rows[29], full);
    for y in 30..50 {
        assert_eq!(rows[y], blank);
    }
    for y in 0..50 {
        for x in 0..50 {
            assert_eq!(buf.get_char(x, y), buf.get_char(50 - x, y).or(Some(' ')));
            assert_eq!(buf.get_char(x, y), buf.get_char(x, 50 - y).or(Some(' ')));
        }
    }
}

#[test]
fn cube_turned_about_one_axis() {
    let mut renderer = cube_renderer();
    renderer.meshs[0].rotation.y = 700;
    let mut buf = CharBuffer::new(50, 50);
    assert_eq!(renderer.draw(&mut buf), Ok(()));
    let rows = picture(&buf);
    let expected = [
        "               ",
        "  ##########   ",
        "  #    ######  ",
        "  #    ##   #  ",
        "  #    ##   #  ",
        "  #    ##   #  ",
        "  #    ##   #  ",
        "  #    ##   #  ",
        "  ###########  ",
        "  #######      ",
        "               ",
    ];
    for (i, want) in expected.iter().enumerate() {
        assert_eq!(&rows[20 + i][18..33], *want);
    }
}

#[test]
fn a_full_turn_gives_the_same_picture() {
    for start in [0, 700, -1234, 3141] {
        let mut renderer = cube_renderer();
        renderer.meshs[0].rotation = Vector3::new(start, 2 * start, 5);
        let mut before = CharBuffer::new(50, 50);
        assert_eq!(renderer.draw(&mut before), Ok(()));
        renderer.meshs[0].rotation.x += 6283;
        let mut after = CharBuffer::new(50, 50);
        assert_eq!(renderer.draw(&mut after), Ok(()));
        assert_eq!(picture(&before), picture(&after));
        renderer.meshs[0].rotation.y -= 2 * 6283;
        renderer.meshs[0].rotation.z += 6283;
        let mut again = CharBuffer::new(50, 50);
        assert_eq!(renderer.draw(&mut again), Ok(()));
        assert_eq!(picture(&before), picture(&again));
    }
}

#[test]
fn cube_on_a_small_screen() {
    let mut renderer = cube_renderer();
    renderer.camera.position = Vector3::new(0, 0, -4000);
    let mut buf = CharBuffer::new(20, 10);
    assert_eq!(renderer.draw(&mut buf), Ok(()));
    assert_eq!(
        picture(&buf),
        vec![
            "                    ",
            "                    ",
            "                    ",
            "       #######      ",
            "       #######      ",
            "       ##   ##      ",
            "       #######      ",
            "       #######      ",
            "                    ",
            "                    ",
        ]
    );
}

#[test]
fn drawing_keeps_what_no_edge_covers() {
    let renderer = cube_renderer();
    let mut buf = CharBuffer::new(50, 50);
    buf.fill('.');
    assert_eq!(renderer.draw(&mut buf), Ok(()));
    assert_eq!(buf.get_char(0, 0), Some('.'));
    assert_eq!(buf.get_char(25, 25), Some('.'));
    assert_eq!(buf.get_char(21, 21), Some('#'));
    assert_eq!(buf.width(), 50);
    assert_eq!(buf.height(), 50);
}

#[test]
fn an_edge_behind_the_eye_is_left_out() {
    let mut renderer = cube_renderer();
    renderer.camera.position = Vector3::new(0, 0, 0);
    let mut buf = CharBuffer::new(50, 50);
    assert_eq!(renderer.draw(&mut buf), Ok(()));
    let rows = picture(&buf);
    let marked: usize = rows.iter().map(|r| r.matches('#').count()).sum();
    assert!(marked > 0);
    let lines = renderer.lines(50, 50);
    assert_eq!(lines.len(), 4);
    renderer.camera.position = Vector3::new(0, 0, 1000);
    assert_eq!(renderer.lines(50, 50).len(), 0);
    let mut buf = CharBuffer::new(50, 50);
    assert_eq!(renderer.draw(&mut buf), Ok(()));
    assert_eq!(picture(&buf), vec![" ".repeat(50); 50]);
}

#[test]
fn lines_come_mesh_after_mesh_and_edge_after_edge() {
    let mut renderer = cube_renderer();
    renderer.meshs.push(create_cube());
    let lines = renderer.lines(50, 50);
    assert_eq!(lines.len(), 24);
    assert_eq!(lines[0].char, '#');
    assert_eq!(lines[0].points, (Vector2::new(28037, 21962), Vector2::new(21962, 21962)));
    assert_eq!(lines[8].points, (Vector2::new(28037, 21962), Vector2::new(29050, 20949)));
    assert_eq!(lines[11].points, (Vector2::new(28037, 28037), Vector2::new(29050, 29050)));
    assert_eq!(lines[12].points, lines[0].points);
    assert_eq!(lines[23].points, lines[11].points);
}

#[test]
fn an_empty_scene_draws_nothing() {
    let mut renderer = cube_renderer();
    renderer.meshs = vec![Mesh::new()];
    let mut buf = CharBuffer::new(8, 8);
    buf.fill('.');
    assert_eq!(renderer.draw(&mut buf), Ok(()));
    assert_eq!(picture(&buf), vec!["........"; 8]);
    renderer.meshs = Vec::new();
    assert_eq!(renderer.draw(&mut buf), Ok(()));
    assert_eq!(picture(&buf), vec!["........"; 8]);
    assert_eq!(renderer.missing_vertex(), None);
}

#[test]
fn a_missing_vertex_is_reported_and_nothing_is_drawn() {
    let mut renderer = cube_renderer();
    let mut broken = create_cube();
    broken.add_edge((3, 11));
    broken.add_edge((12, 0));
    renderer.meshs.push(broken);
    assert_eq!(
        renderer.missing_vertex(),
        Some(MissingVertex { mesh: 1, index: 11 })
    );
    let mut buf = CharBuffer::new(50, 50);
    buf.fill('.');
    assert_eq!(
        renderer.draw(&mut buf),
        Err(MissingVertex { mesh: 1, index: 11 })
    );
    assert_eq!(picture(&buf), vec![".".repeat(50); 50]);
}
