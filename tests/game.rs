use snake::game::initial_snake;
use snake::{Board, Command, Dir, Food, Game, GameUpdate, Pos, Snake};

fn cells(snake: &Snake) -> Vec<Pos> {
    let mut it = snake.iter();
    let mut v = Vec::new();
    while let Some(p) = it.next() {
        v.push(p);
    }
    v
}

fn on_board(p: Pos, board: Board) -> bool {
    0 <= p.x && p.x < board.x && 0 <= p.y && p.y < board.y
}

fn game_with(board: Board, body_tail_first: &[Pos], dir: Dir, food: Pos, periodic_world: bool) -> Game {
    let mut snake = Snake::with_capacity(64, body_tail_first[0]);
    for p in &body_tail_first[1..] {
        snake.grow(*p);
    }
    snake.dir = dir;
    Game { board, snake, food: Food { pos: food }, periodic_world }
}

#[test]
fn new_game_is_on_board_and_food_is_free() {
    for &(w, h, len) in &[(5i16, 5i16, 4u16), (16, 16, 4), (7, 30, 0), (30, 7, 1), (9, 9, 100)] {
        for periodic in [false, true] {
            for _ in 0..20 {
                let board = Board { x: w, y: h };
                let game = Game::new(board, len, periodic);
                let body = cells(&game.snake);
                let expected_len = if len <= 1 { 1 } else { (len as usize).min(w as usize - 2) };
                assert_eq!(body.len(), expected_len);
                for p in &body {
                    assert!(on_board(*p, board));
                    assert_eq!(p.y, body[0].y);
                }
                for (i, p) in body.iter().enumerate() {
                    assert_eq!(p.x, body[0].x - i as i16);
                }
                assert!(on_board(game.food.pos, board));
                assert!(!game.snake.contains(game.food.pos));
                assert_eq!(game.snake.dir, Dir::Right);
                assert_eq!(game.periodic_world, periodic);
            }
        }
    }
}

#[test]
fn new_game_start_is_random() {
    let board = Board { x: 16, y: 16 };
    let first = Game::new(board, 4, false).snake.head();
    let mut differs = false;
    for _ in 0..200 {
        if Game::new(board, 4, false).snake.head() != first {
            differs = true;
        }
    }
    assert!(differs);
}

#[test]
fn initial_snake_lies_right_of_start() {
    let board = Board { x: 16, y: 16 };
    let snake = initial_snake(board, 4, Pos { x: 2, y: 7 });
    assert_eq!(
        cells(&snake),
        vec![Pos { x: 5, y: 7 }, Pos { x: 4, y: 7 }, Pos { x: 3, y: 7 }, Pos { x: 2, y: 7 }]
    );
    assert_eq!(snake.dir, Dir::Right);
    let clamped = initial_snake(Board { x: 6, y: 6 }, 50, Pos { x: 0, y: 0 });
    assert_eq!(clamped.len(), 4);
    let single = initial_snake(board, 0, Pos { x: 3, y: 3 });
    assert_eq!(cells(&single), vec![Pos { x: 3, y: 3 }]);
}

#[test]
fn reversal_is_ignored_on_first_tick() {
    let board = Board { x: 16, y: 16 };
    let mut game = Game::new(board, 4, false);
    let head = game.snake.head();
    let tail = game.snake.tail();
    let food = game.food.pos;
    let update = game.exec(Command::Move(Dir::Left)).unwrap();
    assert_eq!(game.snake.dir, Dir::Right);
    assert_eq!(game.snake.head(), Pos { x: head.x + 1, y: head.y });
    assert_eq!(update.head_prev_pos, Some(head));
    if food == game.snake.head() {
        assert_eq!(update.tail_prev_pos, None);
        assert!(update.food_renew);
    } else {
        assert_eq!(update.tail_prev_pos, Some(tail));
        assert!(!update.food_renew);
    }
}

#[test]
fn turns_and_reversals() {
    let board = Board { x: 16, y: 16 };
    let body = [Pos { x: 3, y: 5 }, Pos { x: 4, y: 5 }, Pos { x: 5, y: 5 }];
    let mut game = game_with(board, &body, Dir::Right, Pos { x: 10, y: 10 }, false);
    game.exec(Command::Move(Dir::Left)).unwrap();
    assert_eq!(game.snake.dir, Dir::Right);
    assert_eq!(game.snake.head(), Pos { x: 6, y: 5 });
    game.exec(Command::Move(Dir::Down)).unwrap();
    assert_eq!(game.snake.dir, Dir::Down);
    assert_eq!(game.snake.head(), Pos { x: 6, y: 6 });
    game.exec(Command::Move(Dir::Up)).unwrap();
    assert_eq!(game.snake.dir, Dir::Down);
    assert_eq!(game.snake.head(), Pos { x: 6, y: 7 });
    game.exec(Command::Nop).unwrap();
    assert_eq!(game.snake.dir, Dir::Down);
    assert_eq!(game.snake.head(), Pos { x: 6, y: 8 });
    game.exec(Command::Move(Dir::Left)).unwrap();
    assert_eq!(game.snake.dir, Dir::Left);
    assert_eq!(game.snake.head(), Pos { x: 5, y: 8 });
}

#[test]
fn normal_move_reports_old_head_and_tail() {
    let board = Board { x: 16, y: 16 };
    let body = [Pos { x: 1, y: 3 }, Pos { x: 1, y: 2 }];
    let mut game = game_with(board, &body, Dir::Up, Pos { x: 10, y: 10 }, false);
    let update = game.exec(Command::Move(Dir::Down)).unwrap();
    assert_eq!(
        update,
        GameUpdate {
            head_prev_pos: Some(Pos { x: 1, y: 2 }),
            tail_prev_pos: Some(Pos { x: 1, y: 3 }),
            food_renew: false,
        }
    );
    assert_eq!(cells(&game.snake), vec![Pos { x: 1, y: 1 }, Pos { x: 1, y: 2 }]);
    assert_eq!(game.snake.dir, Dir::Up);
    assert_eq!(game.food.pos, Pos { x: 10, y: 10 });
}

#[test]
fn eating_food_grows_and_renews_food() {
    let board = Board { x: 16, y: 16 };
    let body = [Pos { x: 3, y: 5 }, Pos { x: 4, y: 5 }, Pos { x: 5, y: 5 }];
    for _ in 0..20 {
        let mut game = game_with(board, &body, Dir::Right, Pos { x: 6, y: 5 }, false);
        let update = game.exec(Command::Nop).unwrap();
        assert_eq!(
            update,
            GameUpdate { head_prev_pos: Some(Pos { x: 5, y: 5 }), tail_prev_pos: None, food_renew: true }
        );
        assert_eq!(game.snake.len(), 4);
        assert_eq!(game.snake.head(), Pos { x: 6, y: 5 });
        assert_eq!(game.snake.tail(), Pos { x: 3, y: 5 });
        assert!(on_board(game.food.pos, board));
        for p in cells(&game.snake) {
            assert_ne!(p, game.food.pos);
        }
    }
}

#[test]
fn eating_the_last_free_cell_ends_the_game() {
    let board = Board { x: 5, y: 5 };
    let mut body = Vec::new();
    for y in 0..5i16 {
        for k in 0..5i16 {
            let x = if y % 2 == 0 { k } else { 4 - k };
            body.push(Pos { x, y });
        }
    }
    let food = body.pop().unwrap();
    let mut game = game_with(board, &body, Dir::Right, food, false);
    let before = cells(&game.snake);
    assert_eq!(game.exec(Command::Nop), None);
    assert_eq!(game.snake.len(), 24);
    assert_eq!(cells(&game.snake), before);
    assert_eq!(game.food.pos, food);
}

#[test]
fn wall_ends_bounded_game_and_wraps_periodic_one() {
    let board = Board { x: 16, y: 12 };
    let far = Pos { x: 8, y: 8 };
    let cases = [
        (Pos { x: 0, y: 5 }, Pos { x: 1, y: 5 }, Dir::Left, Pos { x: 15, y: 5 }),
        (Pos { x: 15, y: 5 }, Pos { x: 14, y: 5 }, Dir::Right, Pos { x: 0, y: 5 }),
        (Pos { x: 4, y: 0 }, Pos { x: 4, y: 1 }, Dir::Up, Pos { x: 4, y: 11 }),
        (Pos { x: 4, y: 11 }, Pos { x: 4, y: 10 }, Dir::Down, Pos { x: 4, y: 0 }),
    ];
    for (head, tail, dir, wrapped) in cases {
        let mut bounded = game_with(board, &[tail, head], dir, far, false);
        assert_eq!(bounded.exec(Command::Nop), None);
        let mut periodic = game_with(board, &[tail, head], dir, far, true);
        let update = periodic.exec(Command::Nop).unwrap();
        assert_eq!(periodic.snake.head(), wrapped);
        assert_eq!(update.head_prev_pos, Some(head));
        assert_eq!(update.tail_prev_pos, Some(tail));
    }
}

#[test]
fn running_into_body_ends_game() {
    let board = Board { x: 16, y: 16 };
    let body = [
        Pos { x: 4, y: 6 },
        Pos { x: 5, y: 6 },
        Pos { x: 5, y: 5 },
        Pos { x: 6, y: 5 },
        Pos { x: 6, y: 6 },
        Pos { x: 6, y: 7 },
        Pos { x: 5, y: 7 },
    ];
    let mut game = game_with(board, &body, Dir::Left, Pos { x: 10, y: 10 }, true);
    assert_eq!(game.exec(Command::Move(Dir::Up)), None);
}

#[test]
fn following_own_tail_is_allowed() {
    let board = Board { x: 16, y: 16 };
    let body = [Pos { x: 5, y: 6 }, Pos { x: 6, y: 6 }, Pos { x: 6, y: 5 }, Pos { x: 5, y: 5 }];
    let mut game = game_with(board, &body, Dir::Left, Pos { x: 10, y: 10 }, false);
    let update = game.exec(Command::Move(Dir::Down)).unwrap();
    assert_eq!(game.snake.head(), Pos { x: 5, y: 6 });
    assert_eq!(update.tail_prev_pos, Some(Pos { x: 5, y: 6 }));
    assert_eq!(game.snake.len(), 4);
}

#[test]
fn exit_changes_nothing() {
    let board = Board { x: 16, y: 16 };
    let mut game = Game::new(board, 4, true);
    let before = cells(&game.snake);
    let food = game.food.pos;
    assert_eq!(game.exec(Command::Exit), None);
    assert_eq!(cells(&game.snake), before);
    assert_eq!(game.food.pos, food);
    assert_eq!(game.snake.dir, Dir::Right);
}

#[test]
fn straight_run_on_periodic_board_never_ends() {
    for &(w, h) in &[(5i16, 5i16), (16, 16), (7, 11)] {
        let board = Board { x: w, y: h };
        let mut game = Game::new(board, 4, true);
        for _ in 0..(4 * w as usize * h as usize) {
            let before = game.snake.len();
            let update = game.exec(Command::Nop).expect("a straight run keeps going");
            if update.food_renew {
                assert_eq!(game.snake.len(), before + 1);
            } else {
                assert_eq!(game.snake.len(), before);
            }
            assert!(on_board(game.food.pos, board));
            assert!(!game.snake.contains(game.food.pos));
        }
    }
}

#[test]
fn generate_food_finds_the_only_free_cell() {
    let board = Board { x: 5, y: 5 };
    let mut body = Vec::new();
    for y in 0..5i16 {
        for k in 0..5i16 {
            let x = if y % 2 == 0 { k } else { 4 - k };
            body.push(Pos { x, y });
        }
    }
    let free = body.remove(12);
    let mut game = game_with(board, &body, Dir::Left, Pos { x: 0, y: 0 }, false);
    game.generate_food();
    assert_eq!(game.food.pos, free);
}
