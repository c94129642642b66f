use webserver::pages::{chats_template_for, message_form_for, message_list_for};
use webserver::store::ChatDatabase;
use webserver::types::{Message, StoreError};

fn persist(store: &mut ChatDatabase, text: &str, user_id: i32, chat_id: i32, now: i32) -> Message {
    store
        .add_message(text.to_string(), user_id, chat_id, now)
        .expect("fresh store must persist")
}

#[test]
fn history_pagination_round_trip() {
    // Persist five messages to room 1, interleaved with noise in room 2;
    // reading room 1 back page by page at two per page yields all five,
    // exactly once, in ascending time order, and reports ceil(5/2) pages.
    let mut store = ChatDatabase::new();
    let texts = ["m1", "m2", "m3", "m4", "m5"];
    for (i, t) in texts.iter().enumerate() {
        persist(&mut store, t, 1, 1, 100 + i as i32);
        persist(&mut store, "noise", 2, 2, 100 + i as i32);
    }

    let mut seen: Vec<String> = Vec::new();
    let mut page = 1u64;
    let total_pages = loop {
        let (msgs, total_pages) = store
            .get_chat_messages_by_id(1, page, 2)
            .expect("history read cannot fail");
        assert_eq!(total_pages, 3, "ceil(5/2) pages");
        if msgs.is_empty() {
            break total_pages;
        }
        for m in &msgs {
            assert_eq!(m.chat_id, 1, "no message from another room");
            seen.push(m.text.clone());
        }
        page += 1;
    };
    assert_eq!(page, total_pages + 1, "exactly the reported pages are non-empty");
    assert_eq!(seen, texts, "all messages exactly once, in ascending time order");
}

#[test]
fn pagination_page_sizes() {
    let mut store = ChatDatabase::new();
    for i in 0..5 {
        persist(&mut store, "x", 1, 1, i);
    }
    let (p1, total) = store.get_chat_messages_by_id(1, 1, 2).unwrap();
    let (p2, _) = store.get_chat_messages_by_id(1, 2, 2).unwrap();
    let (p3, _) = store.get_chat_messages_by_id(1, 3, 2).unwrap();
    let (p4, _) = store.get_chat_messages_by_id(1, 4, 2).unwrap();
    assert_eq!(total, 3);
    assert_eq!((p1.len(), p2.len(), p3.len(), p4.len()), (2, 2, 1, 0));
}

#[test]
fn empty_room_has_no_pages() {
    let store = ChatDatabase::new();
    let (msgs, total_pages) = store.get_chat_messages_by_id(1, 1, 300).unwrap();
    assert!(msgs.is_empty());
    assert_eq!(total_pages, 0);
}

#[test]
fn ids_are_assigned_monotonically() {
    let mut store = ChatDatabase::new();
    let a = persist(&mut store, "a", 1, 1, 10);
    let b = persist(&mut store, "b", 2, 2, 10);
    let c = persist(&mut store, "c", 1, 1, 10);
    assert!(a.id < b.id && b.id < c.id);
}

#[test]
fn clock_regress_is_clamped() {
    // The server assigns timestamps; if the clock steps back, the
    // assigned timestamp holds at the high-water mark so that the
    // stored order remains the time order.
    let mut store = ChatDatabase::new();
    let a = persist(&mut store, "a", 1, 1, 100);
    let b = persist(&mut store, "b", 1, 1, 50);
    let c = persist(&mut store, "c", 1, 1, 120);
    assert_eq!(a.timestamp, 100);
    assert_eq!(b.timestamp, 100);
    assert_eq!(c.timestamp, 120);
    let (msgs, _) = store.get_chat_messages_by_id(1, 1, 10).unwrap();
    let times: Vec<i32> = msgs.iter().map(|m| m.timestamp).collect();
    assert_eq!(times, vec![100, 100, 120]);
}

#[test]
fn room_record_is_upserted_once_per_room() {
    let mut store = ChatDatabase::new();
    persist(&mut store, "a", 1, 7, 100);
    persist(&mut store, "b", 1, 7, 200);
    persist(&mut store, "c", 1, 8, 150);
    assert_eq!(store.chats.len(), 2, "one record per room");
    let seven = store.chats.iter().find(|c| c.id == 7).unwrap();
    assert_eq!(seven.last_changed_timestamp, 200, "last activity bumped");
}

#[test]
fn chats_listed_by_last_activity_for_member() {
    let mut store = ChatDatabase::new();
    store.add_membership(1, 7);
    store.add_membership(1, 8);
    store.add_membership(2, 9);
    persist(&mut store, "a", 1, 8, 100);
    persist(&mut store, "b", 1, 9, 150);
    persist(&mut store, "c", 1, 7, 200);
    let (chats, total_pages) = store.get_chats_by_user_id(1, 1, 100).unwrap();
    assert_eq!(total_pages, 1);
    let ids: Vec<i32> = chats.iter().map(|c| c.id).collect();
    // Room 9 belongs to another user; 8 and 7 come in activity order.
    assert_eq!(ids, vec![8, 7]);
}

#[test]
fn failed_history_read_degrades_to_empty_page() {
    let form = message_form_for(Err(StoreError {}), 3, 4);
    assert_eq!(form.chat_id, 3);
    assert_eq!(form.user_id, 4);
    assert!(form.messages.is_empty());

    let list = message_list_for(Err(StoreError {}), 4);
    assert_eq!(list.user_id, 4);
    assert!(list.messages.is_empty());

    let chats = chats_template_for(Err(StoreError {}), 9);
    assert_eq!(chats.user_id, 9);
    assert!(chats.chats.is_empty());
}

#[test]
fn successful_reads_fill_the_pages() {
    let mut store = ChatDatabase::new();
    persist(&mut store, "hello", 4, 3, 100);
    let fetched = store.get_chat_messages_by_id(3, 1, 300);
    let form = message_form_for(fetched, 3, 4);
    assert_eq!(form.messages.len(), 1);
    assert_eq!(form.messages[0].text, "hello");

    let fetched = store.get_chat_messages_by_id(3, 1, 300);
    let list = message_list_for(fetched, 4);
    assert_eq!(list.messages.len(), 1);

    store.add_membership(4, 3);
    let chats = chats_template_for(store.get_chats_by_user_id(4, 1, 100), 4);
    assert_eq!(chats.chats.len(), 1);
    assert_eq!(chats.chats[0].id, 3);
}
