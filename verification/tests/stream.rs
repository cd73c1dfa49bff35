use pratt::stream::Tokens;

#[test]
fn tokens_come_in_order() {
    let mut tokens = Tokens::new(vec![1, 2, 3]);
    assert_eq!(tokens.len(), 3);
    assert!(!tokens.is_empty());
    assert_eq!(tokens.peek(), Some(&1));
    assert_eq!(tokens.peek(), Some(&1));
    assert_eq!(tokens.next(), Some(1));
    assert_eq!(tokens.peek(), Some(&2));
    assert_eq!(tokens.next(), Some(2));
    assert_eq!(tokens.len(), 1);
    assert_eq!(tokens.next(), Some(3));
    assert!(tokens.is_empty());
    assert_eq!(tokens.peek(), None);
    assert_eq!(tokens.next(), None);
    assert_eq!(tokens.next(), None);
}

#[test]
fn what_is_left_comes_out_in_order() {
    let mut tokens = Tokens::new(vec!['a', 'b', 'c', 'd']);
    tokens.next();
    assert_eq!(tokens.into_vec(), vec!['b', 'c', 'd']);
    let tokens: Tokens<char> = Tokens::new(Vec::new());
    assert_eq!(tokens.into_vec(), Vec::new());
}

#[test]
fn split_before_the_first_stop() {
    let mut tokens = Tokens::new(vec![1, 2, 0, 3, 0, 4]);
    let front = tokens.split_before(&|t: &i32| *t == 0);
    assert_eq!(front.into_vec(), vec![1, 2]);
    assert_eq!(tokens.into_vec(), vec![0, 3, 0, 4]);

    let mut tokens = Tokens::new(vec![0, 1]);
    let front = tokens.split_before(&|t: &i32| *t == 0);
    assert!(front.is_empty());
    assert_eq!(tokens.into_vec(), vec![0, 1]);

    let mut tokens = Tokens::new(vec![1, 2]);
    let front = tokens.split_before(&|t: &i32| *t == 0);
    assert_eq!(front.into_vec(), vec![1, 2]);
    assert!(tokens.is_empty());
}

#[test]
fn unread_puts_tokens_back_in_front() {
    let mut tokens = Tokens::new(vec![3, 4]);
    tokens.unread(Tokens::new(vec![1, 2]));
    assert_eq!(tokens.len(), 4);
    assert_eq!(tokens.into_vec(), vec![1, 2, 3, 4]);

    let mut tokens = Tokens::new(vec![1, 2, 0, 3]);
    let mut front = tokens.split_before(&|t: &i32| *t == 0);
    assert_eq!(front.next(), Some(1));
    tokens.unread(front);
    assert_eq!(tokens.into_vec(), vec![2, 0, 3]);
}
