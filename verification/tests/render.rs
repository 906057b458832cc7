use platformer::block::Block;
use platformer::game::Game;
use platformer::player::Player;
use platformer::playground::Playground;
use platformer::render::DrawCommand;

fn red(x: u128, y: u128, width: u32, height: u32) -> DrawCommand {
    DrawCommand { x, y, width, height, red: 255, green: 0, blue: 0 }
}

fn blue(x: u128, y: u128, width: u32, height: u32) -> DrawCommand {
    DrawCommand { x, y, width, height, red: 0, green: 0, blue: 255 }
}

fn green(x: u128, y: u128, width: u32, height: u32) -> DrawCommand {
    DrawCommand { x, y, width, height, red: 0, green: 255, blue: 0 }
}

#[test]
fn playground_is_drawn_row_by_row() {
    let game = Game::new("|_%\n@_|\n").unwrap();
    let commands = game.render_playground(&game.playground, (10, 20));
    assert_eq!(
        commands,
        vec![blue(0, 0, 10, 20), red(20, 0, 10, 20), red(0, 20, 10, 20), blue(20, 20, 10, 20)]
    );
}

#[test]
fn one_rectangle_for_each_coloured_block() {
    let text = "_%|@\n|_%_\n%%||\n";
    let game = Game::new(text).unwrap();
    let commands = game.render_playground(&game.playground, (3, 5));
    let coloured = text.chars().filter(|c| "%|@".contains(*c)).count();
    assert_eq!(commands.len(), coloured);
    let mut next = 0;
    for y in 0..3 {
        for x in 0..4 {
            let block = game.playground.block_at(x, y).unwrap();
            if let Some(color) = block.color() {
                let command = commands[next];
                assert_eq!((command.x, command.y), (x as u128 * 3, y as u128 * 5));
                assert_eq!((command.width, command.height), (3, 5));
                let packed =
                    (command.red as u32) << 16 | (command.green as u32) << 8 | command.blue as u32;
                assert_eq!(packed, color);
                next += 1;
            }
        }
    }
    assert_eq!(next, commands.len());
}

#[test]
fn empty_playground_draws_nothing() {
    let playground = Playground::new(vec![Block::Empty; 6], 2, 3);
    let game = Game::new("@\n").unwrap();
    assert_eq!(game.render_playground(&playground, (10, 10)), Vec::new());
}

#[test]
fn block_colour_is_split_into_channels() {
    let playground = Playground::new(vec![Block::Wall { color: 0x123456 }], 1, 1);
    let game = Game::new("@\n").unwrap();
    assert_eq!(
        game.render_playground(&playground, (4, 6)),
        vec![DrawCommand { x: 0, y: 0, width: 4, height: 6, red: 0x12, green: 0x34, blue: 0x56 }]
    );
}

#[test]
fn player_is_a_green_tile() {
    let game = Game::new("@\n").unwrap();
    let player = Player { position_x: 3, position_y: 2 };
    assert_eq!(game.render_player(&player, (10, 20)), green(30, 40, 10, 20));
    assert_eq!(game.render_player(&game.player, (10, 20)), green(0, 0, 10, 20));
}

#[test]
fn far_player_is_placed_exactly() {
    let game = Game::new("@\n").unwrap();
    let player = Player { position_x: usize::MAX, position_y: usize::MAX };
    let command = game.render_player(&player, (u32::MAX, 2));
    assert_eq!(command.x, usize::MAX as u128 * u32::MAX as u128);
    assert_eq!(command.y, usize::MAX as u128 * 2);
    assert_eq!((command.width, command.height), (u32::MAX, 2));
}

#[test]
fn frame_ends_with_the_player() {
    let game = Game::new("||||\n|@_|\n||||\n").unwrap();
    let frame = game.render((800, 600));
    // Ten walls, one floor, one player; the empty cell is not drawn.
    assert_eq!(frame.len(), 12);
    assert_eq!(frame[0], blue(0, 0, 200, 200));
    assert_eq!(frame[3], blue(600, 0, 200, 200));
    assert_eq!(frame[4], blue(0, 200, 200, 200));
    assert_eq!(frame[5], red(200, 200, 200, 200));
    assert_eq!(frame[6], blue(600, 200, 200, 200));
    assert_eq!(frame[10], blue(600, 400, 200, 200));
    assert_eq!(frame[11], green(200, 200, 200, 200));
}

#[test]
fn frame_follows_the_size_of_the_surface() {
    let game = Game::new("||||\n|@_|\n||||\n").unwrap();
    let small = game.render((401, 302));
    assert_eq!(small[5], red(100, 100, 100, 100));
    assert_eq!(small[11], green(100, 100, 100, 100));
    let wide = game.render((1600, 300));
    assert_eq!(wide[5], red(400, 100, 400, 100));
}

#[test]
fn surface_smaller_than_the_grid_gives_tiles_of_size_zero() {
    let game = Game::new("||||\n|@_|\n||||\n").unwrap();
    let frame = game.render((3, 2));
    assert_eq!(frame.len(), 12);
    for command in frame {
        assert_eq!((command.x, command.y, command.width, command.height), (0, 0, 0, 0));
    }
    let flat = game.render((8, 2));
    assert_eq!(flat[5], red(2, 0, 2, 0));
}

#[test]
fn render_leaves_the_game_as_it_was() {
    let game = Game::new("||||\n|@_|\n||||\n").unwrap();
    let first = game.render((800, 600));
    let second = game.render((800, 600));
    assert_eq!(first, second);
    assert_eq!(game.player, Player { position_x: 1, position_y: 1 });
    assert!(game.running);
}

#[test]
fn corner_is_the_offset_where_it_fits() {
    assert_eq!(green(30, 40, 10, 20).corner(), (30, 40));
    assert_eq!(green(0, i32::MAX as u128, 1, 1).corner(), (0, i32::MAX));
}

#[test]
fn corner_stops_at_the_largest_offset() {
    assert_eq!(green(i32::MAX as u128 + 1, 5, 1, 1).corner(), (i32::MAX, 5));
    assert_eq!(green(7, u128::MAX, 1, 1).corner(), (7, i32::MAX));
}
