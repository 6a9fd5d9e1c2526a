use salpa::usb_update::{
    esp_crc32_le, next_sequence, InstalledImageError, Operation, Phase, StatusCode, UpdateBackend,
    UpdateLayout, UsbUpdater, VerifiedInstalledImage, ESP32S2_CHIP_ID, ESP_APP_DESCRIPTOR_MAGIC,
    ESP_IMAGE_MAGIC, MAX_WRITE_CHUNK, OTA_SLOT_SIZE, PROTOCOL_VERSION, RSA_PUBLIC_KEY_SIZE,
    RSA_SIGNATURE_SIZE, SECURE_BOOT_V2_RSA_VERSION, SECURE_BOOT_V2_SIGNATURE_MAGIC,
    SESSION_IDLE_TIMEOUT_MS, SESSION_MAX_LIFETIME_MS, SIGNATURE_BLOCK_SIZE, SIGNATURE_CRC_LENGTH,
    SIGNATURE_SECTOR_SIZE, VERIFY_STEP_SIZE, verify_installed_slot,
};
use salpa::ctaphid::{BROADCAST_CHANNEL, Command, CtapHid, DeviceVersion, Event};
use sha2::{Digest, Sha256};


#[derive(Clone, Debug, Eq, PartialEq)]
enum Mutation {
    Erase(u8, u32, u32),
    Write(u8, u32, usize),
    Activate(u8, u32, u8),
}

#[derive(Clone)]
struct FakeBackend {
    now_ms: u64,
    operation_elapsed_ms: u64,
    rsa_elapsed_ms: u64,
    slots: [Vec<u8>; 2],
    layout: UpdateLayout,
    mutations: Vec<Mutation>,
    rsa_valid: bool,
    read_error: bool,
    layout_error: bool,
}

impl FakeBackend {
    fn new() -> Self {
        Self {
            now_ms: 0,
            operation_elapsed_ms: 0,
            rsa_elapsed_ms: 0,
            slots: [
                vec![0x11; OTA_SLOT_SIZE as usize],
                vec![0x22; OTA_SLOT_SIZE as usize],
            ],
            layout: UpdateLayout {
                active_slot: 0,
                active_sequence: 1,
                activation_entry: 1,
            },
            mutations: Vec::new(),
            rsa_valid: true,
            read_error: false,
            layout_error: false,
        }
    }
}

impl UpdateBackend for FakeBackend {
    type Error = ();

    fn now_ms(&self) -> u64 {
        self.now_ms
    }

    fn layout(&mut self) -> Result<UpdateLayout, Self::Error> {
        self.now_ms = self.now_ms.saturating_add(self.operation_elapsed_ms);
        if self.layout_error {
            return Err(());
        }
        Ok(self.layout)
    }

    fn erase(&mut self, slot: u8, offset: u32, length: u32) -> Result<(), Self::Error> {
        self.now_ms = self.now_ms.saturating_add(self.operation_elapsed_ms);
        self.slots[slot as usize][offset as usize..(offset + length) as usize].fill(0xff);
        self.mutations.push(Mutation::Erase(slot, offset, length));
        Ok(())
    }

    fn write(&mut self, slot: u8, offset: u32, data: &[u8]) -> Result<(), Self::Error> {
        self.now_ms = self.now_ms.saturating_add(self.operation_elapsed_ms);
        self.slots[slot as usize][offset as usize..offset as usize + data.len()]
            .copy_from_slice(data);
        self.mutations
            .push(Mutation::Write(slot, offset, data.len()));
        Ok(())
    }

    fn read(&mut self, slot: u8, offset: u32, output: &mut [u8]) -> Result<(), Self::Error> {
        self.now_ms = self.now_ms.saturating_add(self.operation_elapsed_ms);
        if self.read_error {
            return Err(());
        }
        output.copy_from_slice(
            &self.slots[slot as usize][offset as usize..offset as usize + output.len()],
        );
        Ok(())
    }

    fn verify_rsa_pss(
        &mut self,
        _public_key: &[u8; RSA_PUBLIC_KEY_SIZE],
        _signature: &[u8; RSA_SIGNATURE_SIZE],
        _image_digest: &[u8; 32],
    ) -> Result<bool, Self::Error> {
        self.now_ms = self.now_ms.saturating_add(self.rsa_elapsed_ms);
        Ok(self.rsa_valid)
    }

    fn activate(
        &mut self,
        slot: u8,
        sequence: u32,
        activation_entry: u8,
    ) -> Result<(), Self::Error> {
        self.mutations
            .push(Mutation::Activate(slot, sequence, activation_entry));
        self.layout = UpdateLayout {
            active_slot: slot,
            active_sequence: sequence,
            activation_entry: 1 - activation_entry,
        };
        Ok(())
    }
}

fn signed_image(secure_version: u32, version: &[u8]) -> (Vec<u8>, [u8; 32]) {
    sized_signed_image(
        secure_version,
        version,
        (SIGNATURE_SECTOR_SIZE * 2) as usize,
    )
}

fn sized_signed_image(secure_version: u32, version: &[u8], size: usize) -> (Vec<u8>, [u8; 32]) {
    assert!(size >= (SIGNATURE_SECTOR_SIZE * 2) as usize);
    assert!(size.is_multiple_of(SIGNATURE_SECTOR_SIZE as usize));
    let mut image = vec![0xff; size];
    image[0] = ESP_IMAGE_MAGIC;
    image[1] = 1;
    image[12..14].copy_from_slice(&ESP32S2_CHIP_ID.to_le_bytes());
    image[23] = 1;
    image[32..36].copy_from_slice(&ESP_APP_DESCRIPTOR_MAGIC.to_le_bytes());
    image[36..40].copy_from_slice(&secure_version.to_le_bytes());
    image[48..48 + version.len()].copy_from_slice(version);
    image[48 + version.len()] = 0;

    let signed_length = size - SIGNATURE_SECTOR_SIZE as usize;
    let signed_digest: [u8; 32] = Sha256::digest(&image[..signed_length]).into();
    let block = &mut image[signed_length..signed_length + SIGNATURE_BLOCK_SIZE];
    block[0] = SECURE_BOOT_V2_SIGNATURE_MAGIC;
    block[1] = SECURE_BOOT_V2_RSA_VERSION;
    block[4..36].copy_from_slice(&signed_digest);
    for (index, byte) in block[36..812].iter_mut().enumerate() {
        *byte = index as u8;
    }
    block[812..1196].fill(0x5a);
    let crc = esp_crc32_le(0, &block[..SIGNATURE_CRC_LENGTH]);
    block[1196..1200].copy_from_slice(&crc.to_le_bytes());
    let trusted_digest = Sha256::digest(&block[36..812]).into();
    (image, trusted_digest)
}

fn begin_request(image: &[u8], secure_version: u32, version: &[u8]) -> Vec<u8> {
    let mut request = vec![Operation::Begin.number(), PROTOCOL_VERSION];
    request.extend_from_slice(&(image.len() as u32).to_le_bytes());
    request.extend_from_slice(&Sha256::digest(image));
    request.extend_from_slice(&secure_version.to_le_bytes());
    request.push(version.len() as u8);
    request.extend_from_slice(version);
    request
}

fn installed_fixture() -> (FakeBackend, [u8; 32]) {
    let (mut image, trusted) = signed_image(4, b"normal");
    image[24..28].copy_from_slice(&0x3f00_0020_u32.to_le_bytes());
    image[28..32].copy_from_slice(&256_u32.to_le_bytes());
    let digest = Sha256::digest(&image[..4096]);
    image[4100..4132].copy_from_slice(&digest);
    let crc = esp_crc32_le(0, &image[4096..4096 + SIGNATURE_CRC_LENGTH]);
    image[4096 + 1196..4096 + 1200].copy_from_slice(&crc.to_le_bytes());
    let mut backend = FakeBackend::new();
    for slot in &mut backend.slots {
        slot[..image.len()].copy_from_slice(&image);
    }
    (backend, trusted)
}

#[test]
fn installed_slot_verification_reads_both_slots_without_mutations() {
    let (mut backend, trusted) = installed_fixture();
    for slot in 0..2 {
        let image = verify_installed_slot(&mut backend, slot, &trusted).0.unwrap();
        assert_eq!(image.secure_version, 4);
        assert_eq!(image.signed_image_bytes, 8192);
        assert_eq!(
            image.signed_content_digest,
            Sha256::digest(&backend.slots[slot as usize][..4096]).as_slice()
        );
    }
    assert!(backend.mutations.is_empty());
}

#[test]
fn installed_verifier_handles_qualified_multisegment_image_extents() {
    // Segment lengths from the three epoch-4 test builds. Only layout is
    // retained here: all segment contents and signature bytes are synthetic.
    for (lengths, expected_bytes) in [
        ([7436_u32, 1472, 5120, 51476, 344500], 417792_u32),
        ([7452, 1472, 5120, 51460, 345696], 417792),
        ([7444, 1472, 5120, 51468, 343628], 413696),
    ] {
        let (mut backend, trusted) = installed_fixture();
        let signature = backend.slots[0][4096..4096 + SIGNATURE_BLOCK_SIZE].to_vec();
        backend.slots[0][80..].fill(0);
        backend.slots[0][1] = lengths.len() as u8;
        let mut position = 24_usize;
        for length in lengths {
            backend.slots[0][position + 4..position + 8].copy_from_slice(&length.to_le_bytes());
            position += 8 + length as usize;
        }
        let offset = expected_bytes as usize - SIGNATURE_SECTOR_SIZE as usize;
        let digest = Sha256::digest(&backend.slots[0][..offset]);
        let block = &mut backend.slots[0][offset..offset + SIGNATURE_BLOCK_SIZE];
        block.copy_from_slice(&signature);
        block[4..36].copy_from_slice(&digest);
        let crc = esp_crc32_le(0, &block[..SIGNATURE_CRC_LENGTH]);
        block[1196..1200].copy_from_slice(&crc.to_le_bytes());
        let verified = verify_installed_slot(&mut backend, 0, &trusted).0.unwrap();
        assert_eq!(verified.signed_image_bytes, expected_bytes);
        assert_eq!(verified.signed_content_digest, digest.as_slice());
        assert!(backend.mutations.is_empty());
    }
}

#[test]
fn installed_slot_verification_rejects_unbounded_segment_layouts() {
    for length in [u32::MAX, OTA_SLOT_SIZE, OTA_SLOT_SIZE - 4096, 0] {
        let (mut backend, trusted) = installed_fixture();
        backend.slots[0][28..32].copy_from_slice(&length.to_le_bytes());
        assert!(matches!(
            verify_installed_slot(&mut backend, 0, &trusted).0,
            Err(InstalledImageError::Extent | InstalledImageError::Header)
        ));
        assert!(backend.mutations.is_empty());
    }
}

#[test]
fn installed_slot_verification_rejects_wrong_root_digest_and_rsa_failure() {
    let (mut backend, mut trusted) = installed_fixture();
    trusted[0] ^= 1;
    assert_eq!(
        verify_installed_slot(&mut backend, 0, &trusted).0,
        Err(InstalledImageError::Signature)
    );
    let (mut backend, trusted) = installed_fixture();
    backend.slots[0][256] ^= 1;
    assert_eq!(
        verify_installed_slot(&mut backend, 0, &trusted).0,
        Err(InstalledImageError::Signature)
    );
    let (mut backend, trusted) = installed_fixture();
    backend.rsa_valid = false;
    assert_eq!(
        verify_installed_slot(&mut backend, 0, &trusted).0,
        Err(InstalledImageError::Signature)
    );
    assert!(backend.mutations.is_empty());
}

#[test]
fn installed_slot_verification_rejects_reads_bad_headers_and_invalid_slot() {
    let (mut backend, trusted) = installed_fixture();
    backend.read_error = true;
    assert_eq!(
        verify_installed_slot(&mut backend, 0, &trusted).0,
        Err(InstalledImageError::Read)
    );
    assert_eq!(
        verify_installed_slot(&mut backend, 2, &trusted).0,
        Err(InstalledImageError::Slot)
    );
    for (offset, value) in [(0, 0), (1, 0), (1, 17), (23, 0), (36, 17)] {
        let (mut backend, trusted) = installed_fixture();
        backend.slots[0][offset] = value;
        assert_eq!(
            verify_installed_slot(&mut backend, 0, &trusted).0,
            Err(InstalledImageError::Header)
        );
    }
}

fn response(updater: &mut UsbUpdater<FakeBackend>, request: &[u8], present: bool) -> Vec<u8> {
    let mut output = [0; 64];
    let length = updater.handle(request, present, &mut output);
    output[..length].to_vec()
}

#[test]
fn unqualified_running_layout_rejects_approved_begin_without_mutations() {
    let (image, root) = signed_image(5, b"0.1.0");
    let mut backend = FakeBackend::new();
    backend.layout_error = true;
    let original_slots = backend.slots.clone();
    let mut updater = UsbUpdater::new(backend, root, "0.1.0", 5);
    let reply = response(&mut updater, &begin_request(&image, 5, b"0.1.0"), true);
    assert_eq!(reply[0], StatusCode::Flash.number());
    assert_eq!(updater.phase(), Phase::Idle);
    assert_eq!(session_id(&reply), 0);
    assert!(updater.backend().mutations.is_empty());
    assert_eq!(updater.backend().slots, original_slots);
}

fn session_id(reply: &[u8]) -> u32 {
    u32::from_le_bytes(reply[4..8].try_into().unwrap())
}

fn erase_all(updater: &mut UsbUpdater<FakeBackend>, id: u32) {
    while updater.phase() == Phase::Erasing {
        assert_eq!(
            response(
                updater,
                &[
                    Operation::Advance.number(),
                    id as u8,
                    (id >> 8) as u8,
                    (id >> 16) as u8,
                    (id >> 24) as u8
                ],
                false,
            )[0],
            StatusCode::Success.number()
        );
    }
}

fn write_all(updater: &mut UsbUpdater<FakeBackend>, id: u32, image: &[u8]) {
    let mut offset = 0;
    while offset < image.len() {
        let count = (image.len() - offset).min(MAX_WRITE_CHUNK);
        let mut request = vec![Operation::Write.number()];
        request.extend_from_slice(&id.to_le_bytes());
        request.extend_from_slice(&(offset as u32).to_le_bytes());
        request.extend_from_slice(&image[offset..offset + count]);
        assert_eq!(response(updater, &request, false)[0], StatusCode::Success.number());
        offset += count;
    }
}

fn verify_all(updater: &mut UsbUpdater<FakeBackend>, id: u32) -> u8 {
    let mut status = StatusCode::Success.number();
    while matches!(updater.phase(), Phase::Receiving | Phase::Verifying) {
        let mut request = vec![Operation::Advance.number()];
        request.extend_from_slice(&id.to_le_bytes());
        status = response(updater, &request, false)[0];
        if status != StatusCode::Success.number() {
            break;
        }
    }
    status
}

#[test]
fn idle_deadline_revokes_every_live_phase_and_requires_fresh_approval() {
    for phase in [Phase::Erasing, Phase::Receiving, Phase::Verifying] {
        let (image, trust) = sized_signed_image(4, b"next", (VERIFY_STEP_SIZE * 2) as usize);
        let begin = begin_request(&image, 4, b"next");
        let mut updater = UsbUpdater::new(FakeBackend::new(), trust, "old", 4);
        let id = session_id(&response(&mut updater, &begin, true));
        if phase != Phase::Erasing {
            erase_all(&mut updater, id);
        }
        if phase == Phase::Verifying {
            write_all(&mut updater, id, &image);
            response(
                &mut updater,
                &session_request(Operation::Advance, id),
                false,
            );
        }
        assert_eq!(updater.phase(), phase);
        updater.backend_mut().now_ms = SESSION_IDLE_TIMEOUT_MS - 1;
        updater.poll();
        assert_eq!(updater.phase(), phase);
        let mutations = updater.backend().mutations.clone();
        let slots = updater.backend().slots.clone();
        updater.backend_mut().now_ms += 1;
        updater.poll();
        assert_eq!(updater.phase(), Phase::Failed);
        for operation in [Operation::Advance, Operation::Status] {
            assert_eq!(
                response(&mut updater, &session_request(operation, id), false)[0],
                StatusCode::SessionExpired.number()
            );
        }
        let mut write = session_request(Operation::Write, id);
        write.extend_from_slice(&0_u32.to_le_bytes());
        write.extend_from_slice(&image[..32]);
        assert_eq!(
            response(&mut updater, &write, false)[0],
            StatusCode::SessionExpired.number()
        );
        assert_eq!(
            response(&mut updater, &begin, false)[0],
            StatusCode::UserPresenceRequired.number()
        );
        assert_eq!(updater.backend().mutations, mutations);
        assert_eq!(updater.backend().slots, slots);
        let new_id = session_id(&response(&mut updater, &begin, true));
        assert_ne!(id, new_id);
        assert_eq!(updater.phase(), Phase::Erasing);
        assert_eq!(
            response(
                &mut updater,
                &session_request(Operation::Advance, id),
                false
            )[0],
            StatusCode::SessionMismatch.number()
        );
    }
}

#[test]
fn status_invalid_requests_and_polling_do_not_extend_idle_authority() {
    let (image, trust) = signed_image(4, b"next");
    let mut updater = UsbUpdater::new(FakeBackend::new(), trust, "old", 4);
    let id = session_id(&response(
        &mut updater,
        &begin_request(&image, 4, b"next"),
        true,
    ));
    erase_all(&mut updater, id);
    let mutations = updater.backend().mutations.clone();
    for time in [1, SESSION_IDLE_TIMEOUT_MS / 2, SESSION_IDLE_TIMEOUT_MS - 1] {
        updater.backend_mut().now_ms = time;
        response(&mut updater, &[Operation::Info.number()], false);
        response(&mut updater, &session_request(Operation::Status, id), false);
        response(
            &mut updater,
            &session_request(Operation::Advance, id),
            false,
        );
        response(
            &mut updater,
            &session_request(Operation::Abort, id + 1),
            false,
        );
        response(&mut updater, &[255], false);
        updater.poll();
    }
    updater.backend_mut().now_ms = SESSION_IDLE_TIMEOUT_MS;
    // No periodic poll is needed to protect the command path.
    assert_eq!(
        response(
            &mut updater,
            &session_request(Operation::Advance, id),
            false
        )[0],
        StatusCode::SessionExpired.number()
    );
    assert_eq!(updater.backend().mutations, mutations);
}

#[test]
fn successful_progress_renews_idle_time_but_never_absolute_lifetime() {
    let (image, trust) = signed_image(4, b"next");
    let mut updater = UsbUpdater::new(FakeBackend::new(), trust, "old", 4);
    let id = session_id(&response(
        &mut updater,
        &begin_request(&image, 4, b"next"),
        true,
    ));
    erase_all(&mut updater, id);
    let mut offset = 0_u32;
    // Real accepted writes keep idle time live well beyond its initial deadline.
    for time in (60_000..SESSION_MAX_LIFETIME_MS).step_by(60_000) {
        updater.backend_mut().now_ms = time;
        let mut write = session_request(Operation::Write, id);
        write.extend_from_slice(&offset.to_le_bytes());
        write.extend_from_slice(&image[offset as usize..offset as usize + 32]);
        assert_eq!(
            response(&mut updater, &write, false)[0],
            StatusCode::Success.number()
        );
        offset += 32;
    }
    updater.backend_mut().now_ms = SESSION_MAX_LIFETIME_MS - 1;
    updater.poll();
    assert_eq!(updater.phase(), Phase::Receiving);
    let mutations = updater.backend().mutations.clone();
    updater.backend_mut().now_ms += 1;
    let mut write = session_request(Operation::Write, id);
    write.extend_from_slice(&offset.to_le_bytes());
    write.extend_from_slice(&image[offset as usize..offset as usize + 32]);
    assert_eq!(
        response(&mut updater, &write, false)[0],
        StatusCode::SessionExpired.number()
    );
    assert_eq!(updater.backend().mutations, mutations);
}

#[test]
fn backwards_clock_and_u64_wrap_expire_live_sessions() {
    for (start, later, backwards) in [(100, 200, 199), (u64::MAX - 10, u64::MAX - 1, 0)] {
        let (image, trust) = signed_image(4, b"next");
        let mut backend = FakeBackend::new();
        backend.now_ms = start;
        let mut updater = UsbUpdater::new(backend, trust, "old", 4);
        let id = session_id(&response(
            &mut updater,
            &begin_request(&image, 4, b"next"),
            true,
        ));
        updater.backend_mut().now_ms = later;
        updater.poll();
        assert_eq!(updater.phase(), Phase::Erasing);
        updater.backend_mut().now_ms = backwards;
        assert_eq!(
            response(
                &mut updater,
                &session_request(Operation::Advance, id),
                false
            )[0],
            StatusCode::SessionExpired.number()
        );
        assert!(updater.backend().mutations.is_empty());
    }
}

#[test]
fn expiration_during_backend_work_prevents_following_mutations() {
    for operation in [Operation::Advance, Operation::Write] {
        let (image, trust) = signed_image(4, b"next");
        let mut updater = UsbUpdater::new(FakeBackend::new(), trust, "old", 4);
        let id = session_id(&response(
            &mut updater,
            &begin_request(&image, 4, b"next"),
            true,
        ));
        let mut request = session_request(operation, id);
        if operation == Operation::Write {
            erase_all(&mut updater, id);
            request.extend_from_slice(&0_u32.to_le_bytes());
            request.extend_from_slice(&image[..32]);
        }
        let prior = updater.backend().mutations.len();
        updater.backend_mut().operation_elapsed_ms = SESSION_IDLE_TIMEOUT_MS;
        assert_eq!(
            response(&mut updater, &request, false)[0],
            StatusCode::SessionExpired.number()
        );
        // A started bounded operation completes; no subsequent operation starts.
        assert_eq!(updater.backend().mutations.len(), prior + 1);
        assert_eq!(
            response(&mut updater, &request, false)[0],
            StatusCode::SessionExpired.number()
        );
        assert_eq!(updater.backend().mutations.len(), prior + 1);
        assert_eq!(updater.backend().layout.active_slot, 0);
    }
}

#[test]
fn read_and_rsa_time_are_checked_again_before_activation() {
    for slow_rsa in [false, true] {
        let (image, trust) = signed_image(4, b"next");
        let mut updater = UsbUpdater::new(FakeBackend::new(), trust, "old", 4);
        let id = session_id(&response(
            &mut updater,
            &begin_request(&image, 4, b"next"),
            true,
        ));
        erase_all(&mut updater, id);
        write_all(&mut updater, id, &image);
        if slow_rsa {
            updater.backend_mut().rsa_elapsed_ms = SESSION_IDLE_TIMEOUT_MS;
        } else {
            updater.backend_mut().operation_elapsed_ms = SESSION_IDLE_TIMEOUT_MS;
        }
        let mutations = updater.backend().mutations.clone();
        assert_eq!(
            verify_all(&mut updater, id),
            StatusCode::SessionExpired.number()
        );
        assert_eq!(updater.backend().mutations, mutations);
        assert_eq!(updater.backend().layout.active_slot, 0);
    }
}

#[test]
fn activated_result_survives_deadlines_without_repeating_activation() {
    let (image, trust) = signed_image(4, b"next");
    let mut updater = UsbUpdater::new(FakeBackend::new(), trust, "old", 4);
    let id = session_id(&response(
        &mut updater,
        &begin_request(&image, 4, b"next"),
        true,
    ));
    erase_all(&mut updater, id);
    write_all(&mut updater, id, &image);
    assert_eq!(verify_all(&mut updater, id), StatusCode::Success.number());
    let mutations = updater.backend().mutations.clone();
    updater.backend_mut().now_ms = SESSION_MAX_LIFETIME_MS * 2;
    updater.poll();
    assert_eq!(updater.phase(), Phase::Activated);
    assert_eq!(
        response(
            &mut updater,
            &session_request(Operation::Advance, id),
            false
        )[0],
        StatusCode::Success.number()
    );
    assert_eq!(updater.backend().mutations, mutations);
}

#[test]
fn successful_update_mutates_only_inactive_slot_and_activates_last() {
    let (image, trust) = signed_image(1, b"1.2.3");
    let backend = FakeBackend::new();
    let active_before = backend.slots[0].clone();
    let mut updater = UsbUpdater::new(backend, trust, "1.0.0", 1);
    let reply = response(&mut updater, &begin_request(&image, 1, b"1.2.3"), true);
    let id = session_id(&reply);
    erase_all(&mut updater, id);
    write_all(&mut updater, id, &image);
    assert_eq!(verify_all(&mut updater, id), StatusCode::Success.number());
    assert_eq!(updater.phase(), Phase::Activated);
    assert_eq!(updater.backend().slots[0], active_before);
    assert_eq!(&updater.backend().slots[1][..image.len()], image);
    assert_eq!(
        updater.backend().mutations.last(),
        Some(&Mutation::Activate(1, 2, 1))
    );
}

#[test]
fn fresh_user_presence_is_required_before_any_erase() {
    let (image, trust) = signed_image(1, b"1.2.3");
    let mut updater = UsbUpdater::new(FakeBackend::new(), trust, "1.0.0", 1);
    let reply = response(&mut updater, &begin_request(&image, 1, b"1.2.3"), false);
    assert_eq!(reply[0], StatusCode::UserPresenceRequired.number());
    assert_eq!(updater.phase(), Phase::Idle);
    assert!(updater.backend().mutations.is_empty());
}

#[test]
fn unknown_operations_cannot_add_a_raw_restore_path() {
    let (image, trust) = signed_image(1, b"1.2.3");
    let mut updater = UsbUpdater::new(FakeBackend::new(), trust, "1.0.0", 1);
    for with_session in [false, true] {
        if with_session {
            let reply = response(&mut updater, &begin_request(&image, 1, b"1.2.3"), true);
            erase_all(&mut updater, session_id(&reply));
        }
        let mutations = updater.backend().mutations.clone();
        let phase = updater.phase();
        for operation in 6..=u8::MAX {
            // Even claimed presence must not enable an unrecognized
            // maintenance operation or interpret its bytes as an address.
            let request = [operation, 0, 0, 0x3e, 0, 0xff, 0xff, 0xff, 0xff];
            for present in [false, true] {
                assert_eq!(
                    response(&mut updater, &request, present)[0],
                    StatusCode::InvalidRequest.number()
                );
                assert_eq!(updater.phase(), phase);
                assert_eq!(updater.backend().mutations, mutations);
            }
        }
    }
}

#[test]
fn raw_flash_addresses_and_unapproved_writes_do_not_reach_the_backend() {
    let (image, trust) = signed_image(1, b"1.2.3");
    let mut updater = UsbUpdater::new(FakeBackend::new(), trust, "1.0.0", 1);
    let mut write = vec![Operation::Write.number()];
    write.extend_from_slice(&1_u32.to_le_bytes());
    write.extend_from_slice(&0_u32.to_le_bytes());
    write.extend_from_slice(&[0xa5; 32]);
    assert_eq!(
        response(&mut updater, &write, true)[0],
        StatusCode::InvalidState.number()
    );
    assert!(updater.backend().mutations.is_empty());

    let reply = response(&mut updater, &begin_request(&image, 1, b"1.2.3"), true);
    let id = session_id(&reply);
    erase_all(&mut updater, id);
    let mutations = updater.backend().mutations.clone();
    // Bootloader, table, metadata, application and FIDO-store absolute
    // addresses are not valid sequential offsets for this transfer.
    for address in [
        0x1000_u32,
        0xe000,
        0xf000,
        0x20000,
        0x200000,
        0x3e0000,
        u32::MAX,
    ] {
        write[1..5].copy_from_slice(&id.to_le_bytes());
        write[5..9].copy_from_slice(&address.to_le_bytes());
        assert_eq!(
            response(&mut updater, &write, false)[0],
            StatusCode::OutOfOrder.number()
        );
        assert_eq!(updater.backend().mutations, mutations);
        assert_eq!(updater.phase(), Phase::Receiving);
    }
}

#[test]
fn malformed_begin_is_rejected_without_requesting_presence() {
    let (_, trust) = signed_image(1, b"1.2.3");
    let mut updater = UsbUpdater::new(FakeBackend::new(), trust, "1.0.0", 1);
    let reply = response(
        &mut updater,
        &[Operation::Begin.number(), PROTOCOL_VERSION, 0],
        false,
    );
    assert_eq!(reply[0], StatusCode::InvalidRequest.number());
    assert!(updater.backend().mutations.is_empty());
}

#[test]
fn out_of_order_chunk_is_rejected_without_advancing() {
    let (image, trust) = signed_image(1, b"1.2.3");
    let mut updater = UsbUpdater::new(FakeBackend::new(), trust, "1.0.0", 1);
    let id = session_id(&response(
        &mut updater,
        &begin_request(&image, 1, b"1.2.3"),
        true,
    ));
    erase_all(&mut updater, id);
    let mut request = vec![Operation::Write.number()];
    request.extend_from_slice(&id.to_le_bytes());
    request.extend_from_slice(&32_u32.to_le_bytes());
    request.extend_from_slice(&image[..32]);
    let reply = response(&mut updater, &request, false);
    assert_eq!(reply[0], StatusCode::OutOfOrder.number());
    assert_eq!(u32::from_le_bytes(reply[8..12].try_into().unwrap()), 0);
}

#[test]
fn readback_hash_mismatch_never_activates() {
    let (image, trust) = signed_image(1, b"1.2.3");
    let mut request = begin_request(&image, 1, b"1.2.3");
    request[6] ^= 1;
    let mut updater = UsbUpdater::new(FakeBackend::new(), trust, "1.0.0", 1);
    let id = session_id(&response(&mut updater, &request, true));
    erase_all(&mut updater, id);
    write_all(&mut updater, id, &image);
    assert_eq!(verify_all(&mut updater, id), StatusCode::HashMismatch.number());
    assert_eq!(updater.phase(), Phase::Failed);
    assert!(
        !updater
            .backend()
            .mutations
            .iter()
            .any(|event| matches!(event, Mutation::Activate(..)))
    );
}

#[test]
fn invalid_signature_never_activates() {
    let (image, trust) = signed_image(1, b"1.2.3");
    let mut backend = FakeBackend::new();
    backend.rsa_valid = false;
    let mut updater = UsbUpdater::new(backend, trust, "1.0.0", 1);
    let id = session_id(&response(
        &mut updater,
        &begin_request(&image, 1, b"1.2.3"),
        true,
    ));
    erase_all(&mut updater, id);
    write_all(&mut updater, id, &image);
    assert_eq!(verify_all(&mut updater, id), StatusCode::Signature.number());
    assert_eq!(updater.backend().layout.active_slot, 0);
}

#[test]
fn image_signed_by_another_key_never_activates() {
    let (image, mut trust) = signed_image(1, b"1.2.3");
    trust[0] ^= 1;
    let mut updater = UsbUpdater::new(FakeBackend::new(), trust, "1.0.0", 1);
    let id = session_id(&response(
        &mut updater,
        &begin_request(&image, 1, b"1.2.3"),
        true,
    ));
    erase_all(&mut updater, id);
    write_all(&mut updater, id, &image);
    assert_eq!(verify_all(&mut updater, id), StatusCode::Signature.number());
    assert_eq!(updater.backend().layout.active_slot, 0);
}

#[test]
fn power_cut_drops_session_and_leaves_active_slot_selected() {
    let (image, trust) = signed_image(1, b"1.2.3");
    let mut updater = UsbUpdater::new(FakeBackend::new(), trust, "1.0.0", 1);
    let id = session_id(&response(
        &mut updater,
        &begin_request(&image, 1, b"1.2.3"),
        true,
    ));
    erase_all(&mut updater, id);
    let mut request = vec![Operation::Write.number()];
    request.extend_from_slice(&id.to_le_bytes());
    request.extend_from_slice(&0_u32.to_le_bytes());
    request.extend_from_slice(&image[..MAX_WRITE_CHUNK]);
    assert_eq!(
        response(&mut updater, &request, false)[0],
        StatusCode::Success.number()
    );

    let backend = updater.into_backend();
    assert_eq!(backend.layout.active_slot, 0);
    let mut after_reboot = UsbUpdater::new(backend, trust, "1.0.0", 1);
    assert_eq!(after_reboot.phase(), Phase::Idle);
    assert_eq!(
        response(&mut after_reboot, &[Operation::Info.number()], false)[2],
        Phase::Idle.number()
    );
    assert_eq!(after_reboot.backend().layout.active_slot, 0);
}

#[test]
fn lower_secure_version_is_rejected_before_erase() {
    let (image, trust) = signed_image(0, b"0.9.0");
    let mut updater = UsbUpdater::new(FakeBackend::new(), trust, "1.0.0", 1);
    let reply = response(&mut updater, &begin_request(&image, 0, b"0.9.0"), true);
    assert_eq!(reply[0], StatusCode::Rollback.number());
    assert!(updater.backend().mutations.is_empty());
}

#[test]
fn advertised_newer_epoch_cannot_hide_an_older_signed_descriptor() {
    let (image, trust) = signed_image(3, b"0.1.0");
    let mut updater = UsbUpdater::new(FakeBackend::new(), trust, "0.2.0", 4);
    let id = session_id(&response(
        &mut updater,
        &begin_request(&image, 4, b"0.1.0"),
        true,
    ));
    erase_all(&mut updater, id);
    write_all(&mut updater, id, &image);
    assert_eq!(verify_all(&mut updater, id), StatusCode::Rollback.number());
    assert_eq!(updater.backend().layout.active_slot, 0);
    assert!(
        !updater
            .backend()
            .mutations
            .iter()
            .any(|m| matches!(m, Mutation::Activate(..)))
    );
}

#[test]
fn reset_at_each_transfer_boundary_preserves_the_active_image() {
    let (image, trust) = sized_signed_image(
        4,
        b"0.2.0",
        (VERIFY_STEP_SIZE * 2 + SIGNATURE_SECTOR_SIZE) as usize,
    );
    for active in 0..2 {
        let mut backend = FakeBackend::new();
        backend.layout = UpdateLayout {
            active_slot: active,
            active_sequence: u32::from(active) + 1,
            activation_entry: 1 - active,
        };
        let initial = backend.layout;
        let original = backend.slots[active as usize].clone();
        let mut updater = UsbUpdater::new(backend, trust, "0.1.0", 4);
        let begin = begin_request(&image, 4, b"0.2.0");
        let id = session_id(&response(&mut updater, &begin, true));
        let mut advance = vec![Operation::Advance.number()];
        advance.extend_from_slice(&id.to_le_bytes());
        let check_reset = |updater: &UsbUpdater<FakeBackend>| {
            assert_eq!(updater.backend().layout, initial);
            assert_eq!(updater.backend().slots[active as usize], original);
            let mut rebooted = UsbUpdater::new(updater.backend().clone(), trust, "0.1.0", 4);
            assert_eq!(rebooted.phase(), Phase::Idle);
            let mutations = rebooted.backend().mutations.len();
            assert_eq!(
                response(&mut rebooted, &advance, false)[0],
                StatusCode::InvalidState.number()
            );
            assert_eq!(
                response(&mut rebooted, &begin, false)[0],
                StatusCode::UserPresenceRequired.number()
            );
            assert_eq!(rebooted.backend().mutations.len(), mutations);
            assert_eq!(rebooted.backend().layout, initial);
        };
        check_reset(&updater);
        while updater.phase() == Phase::Erasing {
            assert_eq!(
                response(&mut updater, &advance, false)[0],
                StatusCode::Success.number()
            );
            check_reset(&updater);
        }
        for (index, chunk) in image.chunks(MAX_WRITE_CHUNK).enumerate() {
            let mut write = vec![Operation::Write.number()];
            write.extend_from_slice(&id.to_le_bytes());
            write.extend_from_slice(&((index * MAX_WRITE_CHUNK) as u32).to_le_bytes());
            write.extend_from_slice(chunk);
            assert_eq!(
                response(&mut updater, &write, false)[0],
                StatusCode::Success.number()
            );
            check_reset(&updater);
        }
        while matches!(updater.phase(), Phase::Receiving | Phase::Verifying) {
            assert_eq!(
                response(&mut updater, &advance, false)[0],
                StatusCode::Success.number()
            );
            if updater.phase() != Phase::Activated {
                check_reset(&updater);
            }
        }
        assert_eq!(updater.phase(), Phase::Activated);
        assert_eq!(updater.backend().layout.active_slot, 1 - active);
        assert_eq!(updater.backend().slots[active as usize], original);
    }
}

#[test]
fn crc_matches_standard_esp_rom_seed_contract() {
    assert_eq!(esp_crc32_le(0, b"123456789"), 0xcbf4_3926);
}

fn session_request(operation: Operation, id: u32) -> Vec<u8> {
    let mut request = vec![operation.number()];
    request.extend_from_slice(&id.to_le_bytes());
    request
}

#[test]
fn transport_resynchronization_preserves_session_until_vendor_abort() {
    let packet = |channel: u32, command: Command, payload: &[u8]| {
        assert!(payload.len() <= 57);
        let mut packet = [0_u8; 64];
        packet[..4].copy_from_slice(&channel.to_be_bytes());
        packet[4] = 0x80 | command.number();
        packet[5..7].copy_from_slice(&(payload.len() as u16).to_be_bytes());
        packet[7..7 + payload.len()].copy_from_slice(payload);
        packet
    };
    for control in [Command::Cancel, Command::Init] {
        let mut transport = CtapHid::<1024>::new(
            DeviceVersion {
                major: 0,
                minor: 1,
                build: 0,
            },
            0x0c,
        );
        transport.ingest(&packet(BROADCAST_CHANNEL, Command::Init, &[0x5a; 8]), 0);
        let init = transport.next_packet().unwrap();
        let channel = u32::from_be_bytes(init[15..19].try_into().unwrap());
        transport.packet_sent();
        let (image, trust) = signed_image(4, b"next");
        let mut updater = UsbUpdater::new(FakeBackend::new(), trust, "old", 4);
        // Compose the real transport and updater. Presence is supplied by
        // the test; physical wait/cancellation has separate gate tests.
        let exchange = |transport: &mut CtapHid<1024>,
                        updater: &mut UsbUpdater<FakeBackend>,
                        request: &[u8],
                        present: bool| {
            assert!(matches!(
                transport.ingest(&packet(channel, Command::Update, request), 10),
                Event::Update { .. }
            ));
            let reply = response(updater, transport.request_payload().unwrap(), present);
            transport.reply_update(&reply).unwrap();
            while transport.next_packet().is_some() {
                transport.packet_sent();
            }
            reply
        };
        let begin = begin_request(&image, 4, b"next");
        let id = session_id(&exchange(&mut transport, &mut updater, &begin, true));
        let control_payload: &[u8] = if control == Command::Init {
            &[0x33; 8]
        } else {
            &[]
        };
        assert_eq!(
            transport.ingest(&packet(channel, control, control_payload), 10),
            Event::Nothing
        );
        while transport.next_packet().is_some() {
            transport.packet_sent();
        }
        assert_eq!(updater.phase(), Phase::Erasing);
        assert!(updater.backend().mutations.is_empty());
        assert_eq!(
            exchange(
                &mut transport,
                &mut updater,
                &session_request(Operation::Advance, id),
                false
            )[0],
            StatusCode::Success.number()
        );
        assert_eq!(updater.phase(), Phase::Receiving);
        let mutations = updater.backend().mutations.clone();
        assert_eq!(
            exchange(
                &mut transport,
                &mut updater,
                &session_request(Operation::Abort, id),
                false
            )[0],
            StatusCode::Success.number()
        );
        assert_eq!(
            exchange(
                &mut transport,
                &mut updater,
                &session_request(Operation::Advance, id),
                false
            )[0],
            StatusCode::InvalidState.number()
        );
        assert_eq!(
            exchange(&mut transport, &mut updater, &begin, false)[0],
            StatusCode::UserPresenceRequired.number()
        );
        assert_eq!(updater.backend().mutations, mutations);
        assert_eq!(updater.backend().layout.active_slot, 0);
        // A second approved session still expires across either transport
        // control operation, even when it arrives just before the deadline.
        let next_id = session_id(&exchange(&mut transport, &mut updater, &begin, true));
        updater.backend_mut().now_ms = SESSION_IDLE_TIMEOUT_MS - 1;
        transport.ingest(&packet(channel, control, control_payload), 11);
        while transport.next_packet().is_some() {
            transport.packet_sent();
        }
        updater.poll();
        assert_eq!(updater.phase(), Phase::Erasing);
        updater.backend_mut().now_ms += 1;
        assert_eq!(
            exchange(
                &mut transport,
                &mut updater,
                &session_request(Operation::Advance, next_id),
                false
            )[0],
            StatusCode::SessionExpired.number()
        );
        assert_eq!(updater.backend().mutations, mutations);
    }
}

#[test]
fn descriptor_floor_and_host_claim_have_distinct_rejection_codes() {
    // Synthetic signature blocks exercise policy, not ROM RSA semantics.
    for (actual, claimed, version, expected) in [
        (3, 5, b"next".as_slice(), StatusCode::Rollback),
        (4, 5, b"next".as_slice(), StatusCode::VersionMismatch),
        (5, 4, b"next".as_slice(), StatusCode::VersionMismatch),
        (4, 4, b"wrong".as_slice(), StatusCode::VersionMismatch),
        (4, 4, b"next".as_slice(), StatusCode::Success),
        (5, 5, b"next".as_slice(), StatusCode::Success),
    ] {
        let (image, trust) = signed_image(actual, b"next");
        let mut updater = UsbUpdater::new(FakeBackend::new(), trust, "old", 4);
        let id = session_id(&response(
            &mut updater,
            &begin_request(&image, claimed, version),
            true,
        ));
        erase_all(&mut updater, id);
        write_all(&mut updater, id, &image);
        assert_eq!(verify_all(&mut updater, id), expected.number());
        assert_eq!(
            updater.phase() == Phase::Activated,
            expected == StatusCode::Success
        );
        assert_eq!(
            updater.backend().layout.active_slot,
            u8::from(expected == StatusCode::Success)
        );
    }
}

#[test]
fn abort_each_uncommitted_phase_revokes_session_and_requires_new_presence() {
    for phase in [
        Phase::Erasing,
        Phase::Receiving,
        Phase::Verifying,
        Phase::Failed,
    ] {
        let (image, trust) = sized_signed_image(4, b"next", (VERIFY_STEP_SIZE * 2) as usize);
        let begin = begin_request(&image, 4, b"next");
        let mut updater = UsbUpdater::new(FakeBackend::new(), trust, "old", 4);
        let id = session_id(&response(&mut updater, &begin, true));
        if phase != Phase::Erasing {
            erase_all(&mut updater, id);
        }
        if matches!(phase, Phase::Verifying | Phase::Failed) {
            write_all(&mut updater, id, &image);
            updater.backend_mut().read_error = phase == Phase::Failed;
            response(
                &mut updater,
                &session_request(Operation::Advance, id),
                false,
            );
        }
        assert_eq!(updater.phase(), phase);
        let mutations = updater.backend().mutations.clone();
        let slots = updater.backend().slots.clone();
        assert_eq!(
            response(
                &mut updater,
                &session_request(Operation::Abort, id + 1),
                false
            )[0],
            StatusCode::SessionMismatch.number()
        );
        assert_eq!(updater.phase(), phase);
        assert_eq!(
            response(&mut updater, &session_request(Operation::Abort, id), false)[0],
            StatusCode::Success.number()
        );
        assert_eq!(updater.phase(), Phase::Idle);
        for operation in [Operation::Advance, Operation::Status, Operation::Abort] {
            assert_eq!(
                response(&mut updater, &session_request(operation, id), false)[0],
                StatusCode::InvalidState.number()
            );
        }
        let mut write = session_request(Operation::Write, id);
        write.extend_from_slice(&0_u32.to_le_bytes());
        write.extend_from_slice(&image[..32]);
        assert_eq!(
            response(&mut updater, &write, false)[0],
            StatusCode::InvalidState.number()
        );
        assert_eq!(
            response(&mut updater, &begin, false)[0],
            StatusCode::UserPresenceRequired.number()
        );
        assert_eq!(updater.backend().mutations, mutations);
        assert_eq!(updater.backend().slots, slots);
        assert_eq!(updater.backend().layout.active_slot, 0);
        let new_id = session_id(&response(&mut updater, &begin, true));
        assert_ne!(new_id, id);
        assert_eq!(
            response(&mut updater, &write, false)[0],
            StatusCode::SessionMismatch.number()
        );
    }
}

#[test]
fn session_id_wrap_skips_zero_and_rejects_the_previous_session() {
    let (image, trust) = signed_image(4, b"next");
    let mut updater = UsbUpdater::new(FakeBackend::new(), trust, "old", 4);
    updater.set_next_session_id(u32::MAX);
    let begin = begin_request(&image, 4, b"next");
    let old = session_id(&response(&mut updater, &begin, true));
    assert_eq!(old, u32::MAX);
    assert_eq!(
        response(&mut updater, &session_request(Operation::Abort, old), false)[0],
        StatusCode::Success.number()
    );
    assert_eq!(session_id(&response(&mut updater, &begin, true)), 1);
    for id in [0, old] {
        assert_eq!(
            response(
                &mut updater,
                &session_request(Operation::Advance, id),
                false
            )[0],
            StatusCode::SessionMismatch.number()
        );
    }
    assert!(updater.backend().mutations.is_empty());
}

#[test]
fn full_slot_update_is_confined_aligned_and_activation_is_terminal() {
    let (image, trust) = sized_signed_image(4, b"next", OTA_SLOT_SIZE as usize);
    for active in 0..2 {
        let mut backend = FakeBackend::new();
        // Simulated slow backend: each erase/write/read/layout takes 100 ms.
        // Full-slot updates exceed the idle interval overall, but actual
        // progress keeps them live within the fixed absolute lifetime.
        backend.operation_elapsed_ms = 100;
        backend.layout = UpdateLayout {
            active_slot: active,
            active_sequence: u32::from(active) + 1,
            activation_entry: 1 - active,
        };
        let original = backend.slots[active as usize].clone();
        let mut updater = UsbUpdater::new(backend, trust, "old", 4);
        let id = session_id(&response(
            &mut updater,
            &begin_request(&image, 4, b"next"),
            true,
        ));
        erase_all(&mut updater, id);
        write_all(&mut updater, id, &image);
        assert_eq!(verify_all(&mut updater, id), StatusCode::Success.number());
        let mutations = updater.backend().mutations.clone();
        for mutation in &mutations {
            match *mutation {
                Mutation::Erase(slot, offset, length) => {
                    assert_eq!(slot, 1 - active);
                    assert!(offset.is_multiple_of(4096) && length.is_multiple_of(4096));
                    assert!(length > 0 && offset + length <= OTA_SLOT_SIZE);
                }
                Mutation::Write(slot, offset, length) => {
                    assert_eq!(slot, 1 - active);
                    assert!(offset.is_multiple_of(32) && length.is_multiple_of(32));
                    assert!(length > 0 && length <= MAX_WRITE_CHUNK);
                    assert!(offset + length as u32 <= OTA_SLOT_SIZE);
                }
                Mutation::Activate(slot, _, _) => assert_eq!(slot, 1 - active),
            }
        }
        assert_eq!(
            mutations
                .iter()
                .filter(|m| matches!(m, Mutation::Activate(..)))
                .count(),
            1
        );
        assert!(matches!(mutations.last(), Some(Mutation::Activate(..))));
        for _ in 0..3 {
            assert_eq!(
                response(
                    &mut updater,
                    &session_request(Operation::Advance, id),
                    false
                )[0],
                StatusCode::Success.number()
            );
        }
        assert_eq!(
            response(&mut updater, &session_request(Operation::Abort, id), false)[0],
            StatusCode::InvalidState.number()
        );
        assert_eq!(updater.backend().mutations, mutations);
        assert_eq!(updater.backend().slots[active as usize], original);
        assert_eq!(updater.backend().slots[(1 - active) as usize], image);
    }
}

#[test]
fn rejected_writes_preserve_progress_and_flash_before_valid_continuation() {
    let (image, trust) = signed_image(4, b"next");
    let mut updater = UsbUpdater::new(FakeBackend::new(), trust, "old", 4);
    let id = session_id(&response(
        &mut updater,
        &begin_request(&image, 4, b"next"),
        true,
    ));
    erase_all(&mut updater, id);
    let write = |offset: u32, data: &[u8]| {
        let mut request = session_request(Operation::Write, id);
        request.extend_from_slice(&offset.to_le_bytes());
        request.extend_from_slice(data);
        request
    };
    assert_eq!(
        response(&mut updater, &write(0, &image[..32]), false)[0],
        StatusCode::Success.number()
    );
    let mutations = updater.backend().mutations.clone();
    let slots = updater.backend().slots.clone();
    for request in [
        write(0, &image[..32]),
        write(64, &image[64..96]),
        write(u32::MAX, &image[..32]),
        write(32, &[]),
        write(32, &image[..31]),
        write(32, &image[..MAX_WRITE_CHUNK + 32]),
    ] {
        assert_ne!(
            response(&mut updater, &request, false)[0],
            StatusCode::Success.number()
        );
        assert_eq!(updater.session_progress().unwrap(), 32);
        assert_eq!(updater.backend().mutations, mutations);
        assert_eq!(updater.backend().slots, slots);
    }
    assert_eq!(
        response(&mut updater, &write(32, &image[32..64]), false)[0],
        StatusCode::Success.number()
    );
    assert_eq!(updater.session_progress().unwrap(), 64);
}

#[test]
fn crc_of_nothing_returns_the_seed() {
    assert_eq!(esp_crc32_le(0, b""), 0);
    assert_eq!(esp_crc32_le(0x1234_5678, b""), 0x1234_5678);
}

#[test]
fn next_sequence_selects_the_target_slot_by_parity() {
    assert_eq!(next_sequence(1, 1), Some(2));
    assert_eq!(next_sequence(1, 0), Some(3));
    assert_eq!(next_sequence(2, 0), Some(3));
    assert_eq!(next_sequence(2, 1), Some(4));
    assert_eq!(next_sequence(0, 1), None);
    assert_eq!(next_sequence(5, 2), None);
    assert_eq!(next_sequence(u32::MAX, 1), None);
    assert_eq!(next_sequence(u32::MAX - 1, 0), Some(u32::MAX));
}

#[test]
fn operation_bytes_round_trip() {
    for value in 0..=255u8 {
        match Operation::parse(value) {
            Some(operation) => assert_eq!(operation.number(), value),
            None => assert!(value > 5),
        }
    }
    assert_eq!(StatusCode::SessionExpired.number(), 13);
    assert_eq!(Phase::Failed.number(), 5);
}
