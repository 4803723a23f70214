use ghstats::paging::{has_next_page, Pager, PER_PAGE};

#[test]
fn pages_are_concatenated_until_no_next_link() {
  let pages: Vec<Vec<u32>> = vec![
    (0..100).collect(),
    (100..200).collect(),
    (200..300).collect(),
    (300..342).collect(),
  ];
  let next = "<https://api.example.com/x?page=2>; rel=\"next\", <https://api.example.com/x?page=4>; rel=\"last\"";
  let last = "<https://api.example.com/x?page=1>; rel=\"first\", <https://api.example.com/x?page=3>; rel=\"prev\"";
  let mut pager: Pager<u32> = Pager::new();
  let mut requests = 0;
  while !pager.done {
    let (per_page, page) = pager.query();
    assert_eq!(per_page, PER_PAGE);
    assert_eq!(page, requests + 1);
    let i = requests as usize;
    requests += 1;
    let link = if i < 3 { next } else { last };
    pager.on_page(pages[i].clone(), link);
  }
  assert_eq!(requests, 4);
  assert_eq!(pager.items, (0..342).collect::<Vec<u32>>());
}

#[test]
fn next_link_detection() {
  assert!(has_next_page("<u>; rel=\"next\""));
  assert!(!has_next_page(""));
  assert!(!has_next_page("<u>; rel=\"prev\""));
  assert!(!has_next_page("rel=next"));
}
